use crate::text::{
    char_is_ascii_alphanumeric, chars_of, find_from, is_ascii_alphabetic, is_ascii_digit,
    is_first_occurrence, occurs_at, string_of, };
use std::fmt::Write;
use vstd::prelude::*;

verus! {

/// What `rustc_demangle::try_demangle` makes of a name, printed in its alternate form: the
/// demangled text, or nothing where the name is not a mangled Rust name.
pub uninterp spec fn rust_demangling(name: Seq<char>) -> Option<Seq<char>>;

/// What `cpp_demangle` makes of a name: the demangled text, or nothing where the name is not a
/// mangled C++ name.
pub uninterp spec fn cpp_demangling(name: Seq<char>) -> Option<Seq<char>>;

/// Calls `rustc_demangle::try_demangle` and prints what it gives with `{:#}`, which leaves the
/// hash out. Claims only that the result is the one named `rust_demangling`.
#[verifier::external_body]
fn try_rust_demangle(name: &str) -> (r: Option<String>)
    ensures
        match r {
            Some(text) => rust_demangling(name@) == Some(text@),
            None => rust_demangling(name@) is None,
        },
{
    let demangled = rustc_demangle::try_demangle(name).ok()?;
    let mut text = String::new();
    write!(text, "{:#}", demangled).ok()?;
    Some(text)
}

/// Calls `cpp_demangle::Symbol::new` and then `demangle` on what it gives. Claims only that
/// the result is the one named `cpp_demangling`.
#[verifier::external_body]
fn try_cpp_demangle(name: &str) -> (r: Option<String>)
    ensures
        match r {
            Some(text) => cpp_demangling(name@) == Some(text@),
            None => cpp_demangling(name@) is None,
        },
{
    cpp_demangle::Symbol::new(name).ok()?.demangle().ok()
}

/// The readable form of a symbol name: as a Rust name where it is one, else as a C++ name
/// where it is one, else the name itself.
pub open spec fn demangled(name: Seq<char>) -> Seq<char> {
    match rust_demangling(name) {
        Some(text) => text,
        None => match cpp_demangling(name) {
            Some(text) => text,
            None => name,
        },
    }
}

/// A name that is mangled in neither scheme is its own readable form.
pub proof fn lemma_unmangled_name_unchanged(name: Seq<char>)
    requires
        rust_demangling(name) is None,
        cpp_demangling(name) is None,
    ensures
        demangled(name) == name,
{
}

/// The readable form of a symbol name.
pub fn demangle_name(name: &str) -> (r: String)
    ensures
        r@ == demangled(name@),
{
    match try_rust_demangle(name) {
        Some(text) => text,
        None => match try_cpp_demangle(name) {
            Some(text) => text,
            None => name.to_owned(),
        },
    }
}

/// How many `<` stand open after the first `n` characters of `s`. A `>` outside brackets
/// closes nothing.
pub open spec fn depth_after(s: Seq<char>, n: int) -> nat
    decreases n,
{
    if n <= 0 {
        0
    } else {
        let d = depth_after(s, n - 1);
        let c = s[n - 1];
        if d > 0 {
            if c == '>' {
                (d - 1) as nat
            } else if c == '<' {
                d + 1
            } else {
                d
            }
        } else if c == '<' {
            1
        } else {
            0
        }
    }
}

/// `s[p - 1]` and `s[p]` are two colons outside brackets.
pub open spec fn is_split_point(s: Seq<char>, p: int) -> bool {
    &&& 1 <= p < s.len()
    &&& s[p - 1] == ':'
    &&& s[p] == ':'
    &&& depth_after(s, p - 1) == 0
}

/// `p` is the first place at which `s` can be split.
pub open spec fn is_first_split(s: Seq<char>, p: int) -> bool {
    &&& is_split_point(s, p)
    &&& forall|q: int| 0 <= q < p ==> !is_split_point(s, q)
}

/// `s` holds `::` outside brackets.
pub open spec fn has_split(s: Seq<char>) -> bool {
    exists|p: int| is_first_split(s, p)
}

/// The first place at which `s` can be split.
pub open spec fn first_split(s: Seq<char>) -> int {
    choose|p: int| is_first_split(s, p)
}

/// The fragments of a demangled name: what stands between one `::` outside brackets and the
/// next. What follows the last `::` is a fragment unless it is empty.
pub open spec fn symbol_fragments(s: Seq<char>) -> Seq<Seq<char>>
    decreases s.len(),
{
    if s.len() == 0 {
        Seq::empty()
    } else if !has_split(s) {
        seq![s]
    } else {
        let p = first_split(s);
        if 1 <= p < s.len() {
            seq![s.take(p - 1)] + symbol_fragments(s.skip(p + 1))
        } else {
            seq![s]
        }
    }
}

/// The text that marks the fragment of a trait impl.
pub open spec fn impl_marker() -> Seq<char> {
    seq!['i', 'm', 'p', 'l', ' ']
}

/// `c` can stand in the path of a type.
pub open spec fn is_type_char(c: char) -> bool {
    is_ascii_alphabetic(c) || is_ascii_digit(c) || c == '_' || c == ':'
}

/// The length of the longest run of type path characters that `s` begins with.
pub open spec fn type_run(s: Seq<char>) -> int
    decreases s.len(),
{
    if s.len() == 0 || !is_type_char(s[0]) {
        0
    } else {
        1 + type_run(s.skip(1))
    }
}

/// `s` holds the marker of a trait impl.
pub open spec fn has_impl(s: Seq<char>) -> bool {
    exists|at: int| is_first_occurrence(s, impl_marker(), 0, at, false)
}

/// The place of the first marker of a trait impl in `s`.
pub open spec fn impl_place(s: Seq<char>) -> int {
    choose|at: int| is_first_occurrence(s, impl_marker(), 0, at, false)
}

/// What a fragment shows in a short name: the path of the type behind the first `impl `, or
/// the whole fragment where it holds no `impl `.
pub open spec fn impl_fragment(s: Seq<char>) -> (bool, Seq<char>) {
    if has_impl(s) {
        let start = impl_place(s) + 5;
        (true, s.subrange(start, start + type_run(s.skip(start))))
    } else {
        (false, s)
    }
}

/// The fragments joined by `::`, beginning anew at each fragment of a trait impl.
pub open spec fn join_fragments(frags: Seq<Seq<char>>) -> Seq<char>
    decreases frags.len(),
{
    if frags.len() == 0 {
        Seq::empty()
    } else {
        let acc = join_fragments(frags.drop_last());
        let shown = impl_fragment(frags.last());
        if shown.0 || acc.len() == 0 {
            shown.1
        } else {
            acc + seq![':', ':'] + shown.1
        }
    }
}

/// The short form of a demangled name.
pub open spec fn short_name(demangled_name: Seq<char>) -> Seq<char> {
    join_fragments(symbol_fragments(demangled_name))
}

/// A run of type path characters that ends at a character of another kind, or at the end of
/// the text, is the longest one.
proof fn lemma_type_run_is(s: Seq<char>, n: int)
    requires
        0 <= n <= s.len(),
        forall|k: int| 0 <= k < n ==> is_type_char(#[trigger] s[k]),
        n < s.len() ==> !is_type_char(s[n]),
    ensures
        type_run(s) == n,
    decreases s.len(),
{
    if n > 0 {
        assert(is_type_char(s[0]));
        let rest = s.skip(1);
        assert forall|k: int| 0 <= k < n - 1 implies is_type_char(#[trigger] rest[k]) by {
            assert(rest[k] == s[k + 1]);
        }
        lemma_type_run_is(rest, n - 1);
    }
}

/// What a fragment shows in a short name, with whether it is the fragment of a trait impl.
pub fn rust_impl_fragment(impl_str: &Vec<char>) -> (r: (bool, Vec<char>))
    ensures
        r.0 == impl_fragment(impl_str@).0,
        r.1@ == impl_fragment(impl_str@).1,
{
    let marker: Vec<char> = vec!['i', 'm', 'p', 'l', ' '];
    proof {
        assert(marker@ =~= impl_marker());
    }
    let len = impl_str.len();
    match find_from(impl_str, &marker, 0, false) {
        None => {
            proof {
                if has_impl(impl_str@) {
                    let at = impl_place(impl_str@);
                    assert(occurs_at(impl_str@, impl_marker(), at, false));
                }
            }
            (false, impl_str.clone())
        },
        Some(at) => {
            proof {
                assert(is_first_occurrence(impl_str@, impl_marker(), 0, at as int, false));
                let chosen = impl_place(impl_str@);
                assert(is_first_occurrence(impl_str@, impl_marker(), 0, chosen, false));
                assert(chosen == at);
            }
            let start = at + 5;
            let mut end = start;
            let mut out: Vec<char> = Vec::new();
            while end < len && char_is_type_char(impl_str[end])
                invariant
                    start <= end <= len,
                    len == impl_str@.len(),
                    out@ == impl_str@.subrange(start as int, end as int),
                    forall|k: int| start <= k < end ==> is_type_char(#[trigger] impl_str@[k]),
                decreases len - end,
            {
                out.push(impl_str[end]);
                end += 1;
                proof {
                    assert(out@ =~= impl_str@.subrange(start as int, end as int));
                }
            }
            proof {
                let rest = impl_str@.skip(start as int);
                assert forall|k: int| 0 <= k < end - start implies is_type_char(
                    #[trigger] rest[k],
                ) by {
                    assert(rest[k] == impl_str@[start + k]);
                }
                if end < len {
                    assert(rest[end - start] == impl_str@[end as int]);
                }
                lemma_type_run_is(rest, end - start);
            }
            (true, out)
        },
    }
}

/// Whether `c` can stand in the name of a type.
fn char_is_type_char(c: char) -> (r: bool)
    ensures
        r == is_type_char(c),
{
    char_is_ascii_alphanumeric(c) || c == '_' || c == ':'
}

/// Walks over the fragments of a demangled name.
pub struct RustSymFragmentIter {
    symbol: Vec<char>,
    offset: usize,
}

/// The fragments of the demangled name `symbol`, to be taken one by one.
pub fn rust_symbol_fragments(symbol: &str) -> (r: RustSymFragmentIter)
    ensures
        r.remaining() == symbol@,
{
    let chars = chars_of(symbol);
    proof {
        assert(chars@.skip(0) =~= chars@);
    }
    RustSymFragmentIter { symbol: chars, offset: 0 }
}

impl RustSymFragmentIter {
    #[verifier::type_invariant]
    spec fn well_formed(&self) -> bool {
        self.offset <= self.symbol@.len()
    }

    /// The part of the name that is still to be cut into fragments.
    pub closed spec fn remaining(&self) -> Seq<char> {
        self.symbol@.skip(self.offset as int)
    }

    /// The next fragment, or nothing once the name is used up.
    pub fn next(&mut self) -> (r: Option<Vec<char>>)
        ensures
            match r {
                Some(fragment) => symbol_fragments(old(self).remaining()) == seq![fragment@]
                    + symbol_fragments(final(self).remaining()),
                None => old(self).remaining().len() == 0 && final(self).remaining().len() == 0,
            },
            r is Some ==> final(self).remaining().len() < old(self).remaining().len(),
    {
        proof {
            use_type_invariant(&*self);
        }
        let len = self.symbol.len();
        if self.offset >= len {
            return None;
        }
        let start = self.offset;
        let ghost rest = self.symbol@.skip(start as int);
        let mut depth: usize = 0;
        let mut last_was_colon = false;
        let mut idx: usize = start;
        while idx < len
            invariant
                start <= idx <= len,
                start < len,
                len == self.symbol@.len(),
                self.offset == start,
                self.symbol@ == old(self).symbol@,
                rest == old(self).remaining(),
                rest == self.symbol@.skip(start as int),
                depth == depth_after(rest, idx - start),
                depth <= idx - start,
                last_was_colon == (idx > start && rest[idx - start - 1] == ':' && depth_after(
                    rest,
                    idx - start - 1,
                ) == 0),
                forall|q: int| 0 <= q < idx - start ==> !is_split_point(rest, q),
            decreases len - idx,
        {
            let ch = self.symbol[idx];
            proof {
                assert(rest[idx - start] == ch);
            }
            if depth > 0 {
                if ch == '>' {
                    depth -= 1;
                } else if ch == '<' {
                    depth += 1;
                }
                last_was_colon = false;
            } else if ch == ':' {
                if last_was_colon {
                    let fragment = crate::symbol::copy_range(&self.symbol, start, idx - 1);
                    proof {
                        let p = idx - start;
                        assert(is_first_split(rest, p));
                        let chosen = first_split(rest);
                        assert(is_first_split(rest, chosen));
                        assert(chosen == p);
                        assert(fragment@ =~= rest.take(p - 1));
                        assert(rest.skip(p + 1) =~= self.symbol@.skip(idx + 1));
                    }
                    self.offset = idx + 1;
                    return Some(fragment);
                } else {
                    last_was_colon = true;
                }
            } else if ch == '<' {
                last_was_colon = false;
                depth += 1;
            } else {
                last_was_colon = false;
            }
            idx += 1;
        }
        let fragment = crate::symbol::copy_range(&self.symbol, start, len);
        proof {
            if has_split(rest) {
                let p = first_split(rest);
                assert(is_first_split(rest, p));
                assert(false);
            }
            assert(fragment@ =~= rest);
            assert(self.symbol@.skip(len as int).len() == 0);
            assert(seq![rest] + Seq::<Seq<char>>::empty() =~= seq![rest]);
        }
        self.offset = len;
        Some(fragment)
    }
}

/// The characters `from .. to` of `v`.
pub fn copy_range(v: &Vec<char>, from: usize, to: usize) -> (r: Vec<char>)
    requires
        from <= to <= v@.len(),
    ensures
        r@ == v@.subrange(from as int, to as int),
{
    let mut out: Vec<char> = Vec::new();
    let mut i: usize = from;
    while i < to
        invariant
            from <= i <= to <= v@.len(),
            out@ == v@.subrange(from as int, i as int),
        decreases to - i,
    {
        out.push(v[i]);
        i += 1;
        proof {
            assert(out@ =~= v@.subrange(from as int, i as int));
        }
    }
    out
}

/// Appends the characters of `tail` to `out`.
fn append_chars(out: &mut Vec<char>, tail: &Vec<char>)
    ensures
        final(out)@ == old(out)@ + tail@,
{
    let ghost before = out@;
    let mut i: usize = 0;
    while i < tail.len()
        invariant
            i <= tail@.len(),
            out@ == before + tail@.take(i as int),
        decreases tail@.len() - i,
    {
        out.push(tail[i]);
        i += 1;
        proof {
            assert(out@ =~= before + tail@.take(i as int));
        }
    }
    proof {
        assert(tail@.take(tail@.len() as int) =~= tail@);
    }
}

/// One function of a binary.
#[derive(Debug, Clone)]
pub struct Symbol {
    /// Original possibly mangled name.
    pub original_name: String,
    /// Demangled name; where the name is not mangled or cannot be demangled, the same text as
    /// `original_name`.
    pub demangled_name: String,
    /// Virtual address of the symbol during execution.
    pub addr: u64,
    /// File offset of the symbol.
    pub offset: usize,
    /// The size of the symbol's code in bytes.
    pub size: usize,
}

/// What a symbol holds, but for its demangled name, which its name gives.
pub struct SymbolModel {
    pub name: Seq<char>,
    pub addr: u64,
    pub offset: usize,
    pub size: usize,
}

/// What each of the symbols holds.
pub open spec fn symbol_models(symbols: Seq<Symbol>) -> Seq<SymbolModel> {
    Seq::new(symbols.len(), |i: int| symbols[i].model())
}

/// Each of the symbols carries the demangled form of its name.
pub open spec fn all_demangled(symbols: Seq<Symbol>) -> bool {
    forall|i: int|
        0 <= i < symbols.len() ==> (#[trigger] symbols[i]).demangled_name@ == demangled(
            symbols[i].original_name@,
        )
}

impl Symbol {
    /// What the symbol holds, but for its demangled name.
    pub open spec fn model(&self) -> SymbolModel {
        SymbolModel {
            name: self.original_name@,
            addr: self.addr,
            offset: self.offset,
            size: self.size,
        }
    }

    /// A symbol named `name`, with its demangled name.
    pub fn new(name: &str, addr: u64, offset: usize, size: usize) -> (r: Symbol)
        ensures
            r.original_name@ == name@,
            r.demangled_name@ == demangled(name@),
            r.addr == addr,
            r.offset == offset,
            r.size == size,
    {
        Symbol {
            original_name: name.to_owned(),
            demangled_name: demangle_name(name),
            addr,
            offset,
            size,
        }
    }

    /// The bytes of the file that hold the symbol's code.
    pub fn offset_range(&self) -> (r: std::ops::Range<usize>)
        requires
            self.offset + self.size <= usize::MAX,
        ensures
            r.start == self.offset,
            r.end == self.offset + self.size,
    {
        self.offset..(self.offset + self.size)
    }

    /// Returns a shorter version of the symbol's name: the fragments of the demangled name,
    /// beginning anew with the type of each trait impl.
    pub fn short_demangled_name(&self) -> (r: String)
        ensures
            r@ == short_name(self.demangled_name@),
    {
        let mut fragments = rust_symbol_fragments(self.demangled_name.as_str());
        let mut short: Vec<char> = Vec::new();
        let ghost all = symbol_fragments(self.demangled_name@);
        let ghost mut done: Seq<Seq<char>> = Seq::empty();
        proof {
            assert(done + all =~= all);
        }
        loop
            invariant_except_break
                all == symbol_fragments(self.demangled_name@),
                done + symbol_fragments(fragments.remaining()) == all,
                short@ == join_fragments(done),
            ensures
                short@ == join_fragments(symbol_fragments(self.demangled_name@)),
            decreases fragments.remaining().len(),
        {
            let ghost left = fragments.remaining();
            match fragments.next() {
                None => {
                    proof {
                        assert(symbol_fragments(fragments.remaining()) =~= Seq::<
                            Seq<char>,
                        >::empty());
                        assert(done + Seq::<Seq<char>>::empty() =~= done);
                    }
                    break ;
                },
                Some(fragment) => {
                    let (is_impl, shown) = rust_impl_fragment(&fragment);
                    proof {
                        let next_done = done.push(fragment@);
                        assert(next_done.drop_last() =~= done);
                        assert(next_done + symbol_fragments(fragments.remaining()) =~= done + (
                        seq![fragment@] + symbol_fragments(fragments.remaining())));
                    }
                    if is_impl {
                        short.clear();
                    }
                    if short.len() != 0 {
                        short.push(':');
                        short.push(':');
                    }
                    append_chars(&mut short, &shown);
                    proof {
                        let acc = join_fragments(done);
                        if is_impl || acc.len() == 0 {
                            assert(short@ =~= shown@);
                        } else {
                            assert(short@ =~= acc + seq![':', ':'] + shown@);
                        }
                        done = done.push(fragment@);
                    }
                },
            }
        }
        string_of(&short)
    }
}

} // verus!
