use crate::text::{
    char_is_ascii_alphabetic, char_is_ascii_alphanumeric, chars_of, eq_ignore_ascii_case,
    find_from, is_ascii_alphabetic, is_ascii_digit, is_first_occurrence, occurs_at,
    occurs_nowhere, same_but_case,
};
use vstd::prelude::*;

verus! {

/// `c` can begin a token of a needle.
pub open spec fn is_ident_start(c: char) -> bool {
    c == '_' || is_ascii_alphabetic(c)
}

/// `c` can stand in a token of a needle.
pub open spec fn is_ident_part(c: char) -> bool {
    c == '_' || is_ascii_alphabetic(c) || is_ascii_digit(c)
}

/// The length of the longest run of token characters that `s` begins with.
pub open spec fn ident_run(s: Seq<char>) -> int
    decreases s.len(),
{
    if s.len() == 0 || !is_ident_part(s[0]) {
        0
    } else {
        1 + ident_run(s.skip(1))
    }
}

/// The tokens of a needle: from left to right, each longest run of letters, digits and
/// underscores that begins with a letter or an underscore.
pub open spec fn tokenize(s: Seq<char>) -> Seq<Seq<char>>
    decreases s.len(),
{
    if s.len() == 0 {
        Seq::empty()
    } else if !is_ident_start(s[0]) {
        tokenize(s.skip(1))
    } else {
        proof {
            lemma_ident_run_bounds(s);
        }
        seq![s.take(ident_run(s))] + tokenize(s.skip(ident_run(s)))
    }
}

/// The tokens can be found in `name` from `from` on, one behind the other, whatever the case
/// of ASCII letters.
pub open spec fn can_place(name: Seq<char>, tokens: Seq<Seq<char>>, from: int) -> bool
    decreases tokens.len(),
{
    tokens.len() == 0 || exists|at: int|
        from <= at && #[trigger] occurs_at(name, tokens[0], at, true) && can_place(
            name,
            tokens.skip(1),
            at + tokens[0].len(),
        )
}

/// The symbol name `name` answers to the search string `needle`.
pub open spec fn needle_matches(needle: Seq<char>, name: Seq<char>) -> bool {
    can_place(name, tokenize(needle), 0)
}

/// A run of token characters is no longer than the text.
pub proof fn lemma_ident_run_bounds(s: Seq<char>)
    ensures
        0 <= ident_run(s) <= s.len(),
        forall|k: int| 0 <= k < ident_run(s) ==> is_ident_part(#[trigger] s[k]),
        ident_run(s) < s.len() ==> !is_ident_part(s[ident_run(s)]),
        s.len() > 0 && is_ident_start(s[0]) ==> ident_run(s) > 0,
    decreases s.len(),
{
    if s.len() > 0 && is_ident_part(s[0]) {
        let rest = s.skip(1);
        lemma_ident_run_bounds(rest);
        assert forall|k: int| 0 <= k < ident_run(s) implies is_ident_part(#[trigger] s[k]) by {
            if k > 0 {
                assert(s[k] == rest[k - 1]);
            }
        }
        if ident_run(s) < s.len() {
            assert(s[ident_run(s)] == rest[ident_run(rest)]);
        }
    }
}

/// What can be placed from a later start can be placed from an earlier one.
proof fn lemma_can_place_earlier(name: Seq<char>, tokens: Seq<Seq<char>>, from: int, later: int)
    requires
        from <= later,
        can_place(name, tokens, later),
    ensures
        can_place(name, tokens, from),
{
    if tokens.len() > 0 {
        let at = choose|at: int|
            later <= at && #[trigger] occurs_at(name, tokens[0], at, true) && can_place(
                name,
                tokens.skip(1),
                at + tokens[0].len(),
            );
        assert(from <= at && occurs_at(name, tokens[0], at, true));
    }
}

/// Taking the first place at which a token stands loses nothing.
proof fn lemma_first_place_suffices(name: Seq<char>, tokens: Seq<Seq<char>>, from: int, first: int)
    requires
        tokens.len() > 0,
        is_first_occurrence(name, tokens[0], from, first, true),
    ensures
        can_place(name, tokens, from) == can_place(
            name,
            tokens.skip(1),
            first + tokens[0].len(),
        ),
{
    if can_place(name, tokens, from) {
        let at = choose|at: int|
            from <= at && #[trigger] occurs_at(name, tokens[0], at, true) && can_place(
                name,
                tokens.skip(1),
                at + tokens[0].len(),
            );
        assert(first <= at);
        lemma_can_place_earlier(
            name,
            tokens.skip(1),
            first + tokens[0].len(),
            at + tokens[0].len(),
        );
    }
    if can_place(name, tokens.skip(1), first + tokens[0].len()) {
        assert(from <= first && occurs_at(name, tokens[0], first, true));
    }
}

/// Characters that differ in the case of an ASCII letter only are alike as token characters.
proof fn lemma_ident_class_ignores_case(a: char, b: char)
    requires
        eq_ignore_ascii_case(a, b),
    ensures
        is_ident_start(a) == is_ident_start(b),
        is_ident_part(a) == is_ident_part(b),
{
}

proof fn lemma_ident_run_ignores_case(a: Seq<char>, b: Seq<char>)
    requires
        same_but_case(a, b),
    ensures
        ident_run(a) == ident_run(b),
    decreases a.len(),
{
    if a.len() > 0 {
        lemma_ident_class_ignores_case(a[0], b[0]);
        if is_ident_part(a[0]) {
            assert forall|i: int| 0 <= i < a.skip(1).len() implies eq_ignore_ascii_case(
                #[trigger] a.skip(1)[i],
                b.skip(1)[i],
            ) by {
                assert(eq_ignore_ascii_case(a[i + 1], b[i + 1]));
            }
            lemma_ident_run_ignores_case(a.skip(1), b.skip(1));
        }
    }
}

/// Two lists of tokens of the same length whose tokens differ in the case of ASCII letters
/// only.
pub open spec fn tokens_same_but_case(a: Seq<Seq<char>>, b: Seq<Seq<char>>) -> bool {
    &&& a.len() == b.len()
    &&& forall|i: int| 0 <= i < a.len() ==> same_but_case(#[trigger] a[i], b[i])
}

proof fn lemma_same_but_case_slice(a: Seq<char>, b: Seq<char>, from: int, to: int)
    requires
        same_but_case(a, b),
        0 <= from <= to <= a.len(),
    ensures
        same_but_case(a.subrange(from, to), b.subrange(from, to)),
{
    assert forall|i: int| 0 <= i < to - from implies eq_ignore_ascii_case(
        #[trigger] a.subrange(from, to)[i],
        b.subrange(from, to)[i],
    ) by {
        assert(eq_ignore_ascii_case(a[from + i], b[from + i]));
    }
}

proof fn lemma_tokenize_ignores_case(a: Seq<char>, b: Seq<char>)
    requires
        same_but_case(a, b),
    ensures
        tokens_same_but_case(tokenize(a), tokenize(b)),
    decreases a.len(),
{
    if a.len() > 0 {
        lemma_ident_class_ignores_case(a[0], b[0]);
        if !is_ident_start(a[0]) {
            lemma_same_but_case_slice(a, b, 1, a.len() as int);
            lemma_tokenize_ignores_case(a.skip(1), b.skip(1));
        } else {
            let n = ident_run(a);
            lemma_ident_run_ignores_case(a, b);
            lemma_ident_run_bounds(a);
            lemma_same_but_case_slice(a, b, 0, n);
            lemma_same_but_case_slice(a, b, n, a.len() as int);
            lemma_tokenize_ignores_case(a.skip(n), b.skip(n));
            let ta = tokenize(a.skip(n));
            let tb = tokenize(b.skip(n));
            assert forall|i: int| 0 <= i < tokenize(a).len() implies same_but_case(
                #[trigger] tokenize(a)[i],
                tokenize(b)[i],
            ) by {
                if i > 0 {
                    assert(tokenize(a)[i] == ta[i - 1]);
                    assert(tokenize(b)[i] == tb[i - 1]);
                }
            }
        }
    }
}

proof fn lemma_occurs_at_ignores_case(
    name: Seq<char>,
    name2: Seq<char>,
    token: Seq<char>,
    token2: Seq<char>,
    at: int,
)
    requires
        same_but_case(name, name2),
        same_but_case(token, token2),
        occurs_at(name, token, at, true),
    ensures
        occurs_at(name2, token2, at, true),
{
    assert forall|k: int| 0 <= k < token2.len() implies eq_ignore_ascii_case(
        name2[at + k],
        #[trigger] token2[k],
    ) by {
        assert(eq_ignore_ascii_case(name[at + k], token[k]));
        assert(eq_ignore_ascii_case(name[at + k], name2[at + k]));
        assert(eq_ignore_ascii_case(token[k], token2[k]));
    }
}

proof fn lemma_can_place_ignores_case(
    name: Seq<char>,
    name2: Seq<char>,
    tokens: Seq<Seq<char>>,
    tokens2: Seq<Seq<char>>,
    from: int,
)
    requires
        same_but_case(name, name2),
        tokens_same_but_case(tokens, tokens2),
        can_place(name, tokens, from),
    ensures
        can_place(name2, tokens2, from),
    decreases tokens.len(),
{
    if tokens.len() > 0 {
        let at = choose|at: int|
            from <= at && #[trigger] occurs_at(name, tokens[0], at, true) && can_place(
                name,
                tokens.skip(1),
                at + tokens[0].len(),
            );
        assert(same_but_case(tokens[0], tokens2[0]));
        lemma_occurs_at_ignores_case(name, name2, tokens[0], tokens2[0], at);
        assert forall|i: int| 0 <= i < tokens.skip(1).len() implies same_but_case(
            #[trigger] tokens.skip(1)[i],
            tokens2.skip(1)[i],
        ) by {
            assert(same_but_case(tokens[i + 1], tokens2[i + 1]));
        }
        lemma_can_place_ignores_case(
            name,
            name2,
            tokens.skip(1),
            tokens2.skip(1),
            at + tokens[0].len(),
        );
        assert(from <= at && occurs_at(name2, tokens2[0], at, true));
    }
}

proof fn lemma_same_but_case_symmetric(a: Seq<char>, b: Seq<char>)
    requires
        same_but_case(a, b),
    ensures
        same_but_case(b, a),
{
    assert forall|i: int| 0 <= i < b.len() implies eq_ignore_ascii_case(#[trigger] b[i], a[i]) by {
        assert(eq_ignore_ascii_case(a[i], b[i]));
    }
}

/// Whether a name answers to a needle does not depend on the case of the ASCII letters of
/// either: changing the case of any of them in the needle, in the name or in both leaves the
/// answer as it is.
pub proof fn lemma_match_ignores_case(
    needle: Seq<char>,
    name: Seq<char>,
    needle2: Seq<char>,
    name2: Seq<char>,
)
    requires
        same_but_case(needle, needle2),
        same_but_case(name, name2),
    ensures
        needle_matches(needle, name) == needle_matches(needle2, name2),
{
    lemma_tokenize_ignores_case(needle, needle2);
    lemma_same_but_case_symmetric(needle, needle2);
    lemma_same_but_case_symmetric(name, name2);
    lemma_tokenize_ignores_case(needle2, needle);
    if needle_matches(needle, name) {
        lemma_can_place_ignores_case(name, name2, tokenize(needle), tokenize(needle2), 0);
    }
    if needle_matches(needle2, name2) {
        lemma_can_place_ignores_case(name2, name, tokenize(needle2), tokenize(needle), 0);
    }
}

/// The text of each token.
pub open spec fn token_texts(tokens: Seq<Vec<char>>) -> Seq<Seq<char>> {
    tokens.map_values(|t: Vec<char>| t@)
}

/// A search string, cut into its tokens.
pub struct SymbolMatcher {
    original_needle: String,
    tokens: Vec<Vec<char>>,
}

impl SymbolMatcher {
    #[verifier::type_invariant]
    spec fn well_formed(&self) -> bool {
        token_texts(self.tokens@) == tokenize(self.original_needle@)
    }

    /// The search string that the matcher was made from.
    pub closed spec fn needle_text(&self) -> Seq<char> {
        self.original_needle@
    }

    pub fn new(needle: &str) -> (r: SymbolMatcher)
        ensures
            r.needle_text() == needle@,
    {
        let chars = chars_of(needle);
        let mut tokens: Vec<Vec<char>> = Vec::new();
        Self::tokenize(&chars, &mut tokens);
        let original_needle = needle.to_owned();
        proof {
            assert(token_texts(Seq::<Vec<char>>::empty()) =~= Seq::<Seq<char>>::empty());
            assert(Seq::<Seq<char>>::empty() + tokenize(chars@) =~= tokenize(chars@));
        }
        SymbolMatcher { original_needle, tokens }
    }

    pub fn needle(&self) -> (r: &str)
        ensures
            r@ == self.needle_text(),
    {
        self.original_needle.as_str()
    }

    /// Whether the tokens of the needle can be found in `name`, each behind the one before it,
    /// whatever the case of ASCII letters.
    pub fn matches(&self, name: &str) -> (r: bool)
        ensures
            r == needle_matches(self.needle_text(), name@),
    {
        proof {
            use_type_invariant(self);
        }
        let hay = chars_of(name);
        let ghost all = token_texts(self.tokens@);
        let mut from: usize = 0;
        let mut i: usize = 0;
        proof {
            assert(all.skip(0) =~= all);
        }
        while i < self.tokens.len()
            invariant
                i <= self.tokens@.len(),
                all == token_texts(self.tokens@),
                all == tokenize(self.needle_text()),
                hay@ == name@,
                from <= hay@.len(),
                can_place(hay@, all, 0) == can_place(hay@, all.skip(i as int), from as int),
            decreases self.tokens@.len() - i,
        {
            let ghost rest = all.skip(i as int);
            proof {
                assert(rest[0] == self.tokens@[i as int]@);
                assert(rest.skip(1) =~= all.skip(i + 1));
            }
            match Self::find_ignore_case(&hay, from, &self.tokens[i]) {
                Some((_found_idx, found_end_idx)) => {
                    proof {
                        lemma_first_place_suffices(hay@, rest, from as int, _found_idx as int);
                    }
                    from = found_end_idx;
                },
                None => {
                    proof {
                        if can_place(hay@, rest, from as int) {
                            let at = choose|at: int|
                                from <= at && #[trigger] occurs_at(hay@, rest[0], at, true)
                                    && can_place(hay@, rest.skip(1), at + rest[0].len());
                            assert(false);
                        }
                    }
                    return false;
                },
            }
            i += 1;
        }
        proof {
            assert(all.skip(i as int).len() == 0);
        }
        true
    }

    /// The first place from `from` on at which `needle` stands in `haystack`, whatever the
    /// case of ASCII letters, with the place at which it ends.
    pub fn find_ignore_case(haystack: &Vec<char>, from: usize, needle: &Vec<char>) -> (r: Option<
        (usize, usize),
    >)
        ensures
            match r {
                Some((at, end)) => is_first_occurrence(
                    haystack@,
                    needle@,
                    from as int,
                    at as int,
                    true,
                ) && end == at + needle@.len(),
                None => occurs_nowhere(haystack@, needle@, from as int, true),
            },
    {
        match find_from(haystack, needle, from, true) {
            Some(at) => {
                let hay_len = haystack.len();
                Some((at, at + needle.len()))
            },
            None => None,
        }
    }

    /// Appends to `tokens` the tokens of `needle`.
    pub fn tokenize(needle: &Vec<char>, tokens: &mut Vec<Vec<char>>)
        ensures
            token_texts(final(tokens)@) == token_texts(old(tokens)@) + tokenize(needle@),
    {
        let ghost before = token_texts(tokens@);
        let len = needle.len();
        let mut idx: usize = 0;
        proof {
            assert(needle@.skip(0) =~= needle@);
        }
        while idx < len
            invariant
                idx <= len,
                len == needle@.len(),
                token_texts(tokens@) + tokenize(needle@.skip(idx as int)) == before + tokenize(
                    needle@,
                ),
            decreases len - idx,
        {
            let ghost rest = needle@.skip(idx as int);
            if Self::is_ident_start(needle[idx]) {
                let start = idx;
                let mut token: Vec<char> = Vec::new();
                proof {
                    lemma_ident_run_bounds(rest);
                }
                while idx < len && Self::is_ident_part(needle[idx])
                    invariant
                        start <= idx <= len,
                        len == needle@.len(),
                        rest == needle@.skip(start as int),
                        token@ == needle@.subrange(start as int, idx as int),
                        idx - start <= ident_run(rest),
                        0 <= ident_run(rest) <= rest.len(),
                        forall|k: int| 0 <= k < ident_run(rest) ==> is_ident_part(#[trigger] rest[k]),
                        ident_run(rest) < rest.len() ==> !is_ident_part(rest[ident_run(rest)]),
                    decreases len - idx,
                {
                    proof {
                        assert(needle@[idx as int] == rest[idx - start]);
                    }
                    token.push(needle[idx]);
                    idx += 1;
                    proof {
                        assert(token@ =~= needle@.subrange(start as int, idx as int));
                    }
                }
                proof {
                    if idx < len {
                        assert(needle@[idx as int] == rest[idx - start]);
                    }
                    assert(idx - start == ident_run(rest));
                    assert(token@ =~= rest.take(ident_run(rest)));
                    assert(rest.skip(ident_run(rest)) =~= needle@.skip(idx as int));
                    assert(token_texts(tokens@.push(token)) =~= token_texts(tokens@) + seq![token@]);
                    assert(token_texts(tokens@) + (seq![token@] + tokenize(
                        needle@.skip(idx as int),
                    )) =~= token_texts(tokens@) + seq![token@] + tokenize(needle@.skip(idx as int)));
                }
                tokens.push(token);
            } else {
                proof {
                    assert(rest.skip(1) =~= needle@.skip(idx + 1));
                }
                idx += 1;
            }
        }
        proof {
            assert(needle@.skip(len as int).len() == 0);
            assert(token_texts(tokens@) + Seq::<Seq<char>>::empty() =~= token_texts(tokens@));
        }
    }

    pub fn is_ident_start(ch: char) -> (r: bool)
        ensures
            r == is_ident_start(ch),
    {
        ch == '_' || char_is_ascii_alphabetic(ch)
    }

    pub fn is_ident_part(ch: char) -> (r: bool)
        ensures
            r == is_ident_part(ch),
    {
        ch == '_' || char_is_ascii_alphanumeric(ch)
    }
}

} // verus!
