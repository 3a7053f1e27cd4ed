use vstd::prelude::*;

verus! {

pub assume_specification[ String::push ](s: &mut String, c: char)
    ensures
        final(s)@ == old(s)@.push(c),
;

/// The characters of `s`, in order.
pub fn chars_of(s: &str) -> (r: Vec<char>)
    ensures
        r@ == s@,
{
    let mut out: Vec<char> = Vec::new();
    for c in it: s.chars()
        invariant
            out@ == it.seq().take(it.index() as int),
            it.seq() == s@,
    {
        out.push(c);
    }
    out
}

/// The string made of the characters of `v`, in order.
pub fn string_of(v: &Vec<char>) -> (r: String)
    ensures
        r@ == v@,
{
    let mut out = String::new();
    let mut i: usize = 0;
    while i < v.len()
        invariant
            i <= v.len(),
            out@ == v@.take(i as int),
        decreases v.len() - i,
    {
        out.push(v[i]);
        proof {
            assert(v@.take(i + 1) =~= v@.take(i as int).push(v@[i as int]));
        }
        i += 1;
    }
    proof {
        assert(v@.take(v.len() as int) =~= v@);
    }
    out
}

/// The string made of the characters `from .. to` of `v`.
pub fn string_of_range(v: &Vec<char>, from: usize, to: usize) -> (r: String)
    requires
        from <= to <= v@.len(),
    ensures
        r@ == v@.subrange(from as int, to as int),
{
    let mut out = String::new();
    let mut i: usize = from;
    while i < to
        invariant
            from <= i <= to <= v@.len(),
            out@ == v@.subrange(from as int, i as int),
        decreases to - i,
    {
        out.push(v[i]);
        proof {
            assert(v@.subrange(from as int, i + 1) =~= v@.subrange(from as int, i as int).push(
                v@[i as int],
            ));
        }
        i += 1;
    }
    out
}

/// Appends the characters of `v` to `out`.
pub fn push_chars(out: &mut String, v: &Vec<char>)
    ensures
        final(out)@ == old(out)@ + v@,
{
    let ghost before = out@;
    let mut i: usize = 0;
    while i < v.len()
        invariant
            i <= v.len(),
            out@ == before + v@.take(i as int),
        decreases v.len() - i,
    {
        out.push(v[i]);
        proof {
            assert(before + v@.take(i + 1) =~= (before + v@.take(i as int)).push(v@[i as int]));
        }
        i += 1;
    }
    proof {
        assert(v@.take(v.len() as int) =~= v@);
    }
}

/// Appends the characters of `s` to `out`.
pub fn push_str(out: &mut String, s: &str)
    ensures
        final(out)@ == old(out)@ + s@,
{
    let v = chars_of(s);
    push_chars(out, &v);
}

/// Appends `count` spaces to `out`.
pub fn push_spaces(out: &mut String, count: usize)
    ensures
        final(out)@ == old(out)@ + Seq::new(count as nat, |i: int| ' '),
{
    let ghost before = out@;
    let mut i: usize = 0;
    while i < count
        invariant
            i <= count,
            out@ == before + Seq::new(i as nat, |k: int| ' '),
        decreases count - i,
    {
        out.push(' ');
        i += 1;
        proof {
            assert(out@ =~= before + Seq::new(i as nat, |k: int| ' '));
        }
    }
}

/// The text of each string.
pub open spec fn texts(strings: Seq<String>) -> Seq<Seq<char>> {
    Seq::new(strings.len(), |i: int| strings[i]@)
}

/// The text of a string, where there is one.
pub open spec fn text_of(text: Option<String>) -> Option<Seq<char>> {
    match text {
        Some(t) => Some(t@),
        None => None,
    }
}

/// Whether two strings hold the same characters.
pub fn same_text(a: &str, b: &str) -> (r: bool)
    ensures
        r == (a@ == b@),
{
    let x = chars_of(a);
    let y = chars_of(b);
    same_chars(&x, &y)
}

/// Whether two vectors hold the same characters.
pub fn same_chars(a: &Vec<char>, b: &Vec<char>) -> (r: bool)
    ensures
        r == (a@ == b@),
{
    if a.len() != b.len() {
        return false;
    }
    let mut i: usize = 0;
    while i < a.len()
        invariant
            i <= a@.len(),
            a@.len() == b@.len(),
            forall|k: int| 0 <= k < i ==> a@[k] == b@[k],
        decreases a@.len() - i,
    {
        if a[i] != b[i] {
            return false;
        }
        i += 1;
    }
    proof {
        assert(a@ =~= b@);
    }
    true
}

/// The code of `c`, or of its lower case form where `c` is an upper case ASCII letter.
pub open spec fn lower_code(c: char) -> int {
    if 'A' <= c <= 'Z' {
        c as int + 32
    } else {
        c as int
    }
}

/// The two characters are the same but for the case of an ASCII letter.
pub open spec fn eq_ignore_ascii_case(a: char, b: char) -> bool {
    lower_code(a) == lower_code(b)
}

/// Two sequences of the same length whose characters are the same but for the case of ASCII
/// letters.
pub open spec fn same_but_case(a: Seq<char>, b: Seq<char>) -> bool {
    &&& a.len() == b.len()
    &&& forall|i: int| 0 <= i < a.len() ==> eq_ignore_ascii_case(#[trigger] a[i], b[i])
}

/// `c` is an ASCII letter.
pub open spec fn is_ascii_alphabetic(c: char) -> bool {
    ('a' <= c <= 'z') || ('A' <= c <= 'Z')
}

/// `c` is an ASCII digit.
pub open spec fn is_ascii_digit(c: char) -> bool {
    '0' <= c <= '9'
}

pub fn char_is_ascii_alphabetic(c: char) -> (r: bool)
    ensures
        r == is_ascii_alphabetic(c),
{
    ('a' <= c && c <= 'z') || ('A' <= c && c <= 'Z')
}

pub fn char_is_ascii_alphanumeric(c: char) -> (r: bool)
    ensures
        r == (is_ascii_alphabetic(c) || is_ascii_digit(c)),
{
    ('a' <= c && c <= 'z') || ('A' <= c && c <= 'Z') || ('0' <= c && c <= '9')
}

/// Whether the two characters are the same but for the case of an ASCII letter.
pub fn chars_eq_ignore_ascii_case(a: char, b: char) -> (r: bool)
    ensures
        r == eq_ignore_ascii_case(a, b),
{
    let x: u32 = if 'A' <= a && a <= 'Z' {
        a as u32 + 32
    } else {
        a as u32
    };
    let y: u32 = if 'A' <= b && b <= 'Z' {
        b as u32 + 32
    } else {
        b as u32
    };
    x == y
}

/// The two characters count as the same: exactly, or but for the case of an ASCII letter where
/// `fold` is set.
pub open spec fn char_matches(a: char, b: char, fold: bool) -> bool {
    if fold {
        eq_ignore_ascii_case(a, b)
    } else {
        a == b
    }
}

/// `needle` stands in `hay` at `at`.
pub open spec fn occurs_at(hay: Seq<char>, needle: Seq<char>, at: int, fold: bool) -> bool {
    &&& 0 <= at
    &&& at + needle.len() <= hay.len()
    &&& forall|k: int| 0 <= k < needle.len() ==> char_matches(hay[at + k], #[trigger] needle[k], fold)
}

/// `at` is the first place from `start` on at which `needle` stands in `hay`.
pub open spec fn is_first_occurrence(
    hay: Seq<char>,
    needle: Seq<char>,
    start: int,
    at: int,
    fold: bool,
) -> bool {
    &&& start <= at
    &&& occurs_at(hay, needle, at, fold)
    &&& forall|q: int| start <= q < at ==> !occurs_at(hay, needle, q, fold)
}

/// `needle` stands nowhere in `hay` from `start` on.
pub open spec fn occurs_nowhere(hay: Seq<char>, needle: Seq<char>, start: int, fold: bool) -> bool {
    forall|q: int| start <= q ==> !occurs_at(hay, needle, q, fold)
}

/// Whether `needle` stands in `hay` at `at`.
pub fn check_occurs_at(hay: &Vec<char>, needle: &Vec<char>, at: usize, fold: bool) -> (r: bool)
    ensures
        r == occurs_at(hay@, needle@, at as int, fold),
{
    let hay_len = hay.len();
    if at > hay_len || needle.len() > hay_len - at {
        return false;
    }
    let mut k: usize = 0;
    while k < needle.len()
        invariant
            k <= needle@.len(),
            hay_len == hay@.len(),
            at + needle@.len() <= hay_len,
            forall|m: int| 0 <= m < k ==> char_matches(hay@[at + m], #[trigger] needle@[m], fold),
        decreases needle@.len() - k,
    {
        let same = if fold {
            chars_eq_ignore_ascii_case(hay[at + k], needle[k])
        } else {
            hay[at + k] == needle[k]
        };
        if !same {
            return false;
        }
        k += 1;
    }
    true
}

/// The first place from `start` on at which `needle` stands in `hay`.
pub fn find_from(hay: &Vec<char>, needle: &Vec<char>, start: usize, fold: bool) -> (r: Option<
    usize,
>)
    ensures
        match r {
            Some(at) => is_first_occurrence(hay@, needle@, start as int, at as int, fold),
            None => occurs_nowhere(hay@, needle@, start as int, fold),
        },
{
    let hay_len = hay.len();
    if start > hay_len {
        return None;
    }
    let mut at: usize = start;
    loop
        invariant
            start <= at <= hay_len,
            hay_len == hay@.len(),
            forall|q: int| start <= q < at ==> !occurs_at(hay@, needle@, q, fold),
        decreases hay_len - at,
    {
        if check_occurs_at(hay, needle, at, fold) {
            return Some(at);
        }
        if at == hay_len {
            return None;
        }
        at += 1;
    }
}

} // verus!
