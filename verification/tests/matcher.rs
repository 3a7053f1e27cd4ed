use cargo_asm::matcher::SymbolMatcher;

fn tokens_of(needle: &str) -> Vec<String> {
    let chars: Vec<char> = needle.chars().collect();
    let mut tokens = Vec::new();
    SymbolMatcher::tokenize(&chars, &mut tokens);
    tokens.into_iter().map(|t| t.into_iter().collect()).collect()
}

#[test]
fn needle_is_kept_as_given() {
    let matcher = SymbolMatcher::new("core::Fmt write");
    assert_eq!(matcher.needle(), "core::Fmt write");
}

#[test]
fn needle_matches_whole_name() {
    let matcher = SymbolMatcher::new("pow");
    assert!(matcher.matches("pow"));
    assert!(matcher.matches("Pow_helper"));
    assert!(matcher.matches("my_crate::POW"));
    assert!(!matcher.matches("main"));
    assert!(!matcher.matches("po"));
}

#[test]
fn needle_pw_matches_no_name_without_it() {
    let matcher = SymbolMatcher::new("pw");
    assert!(!matcher.matches("main"));
    assert!(matcher.matches("pw"));
    assert!(matcher.matches("spwn"));
}

#[test]
fn needle_of_two_tokens_matches_them_in_order() {
    let matcher = SymbolMatcher::new("p w");
    assert!(matcher.matches("pow"));
    assert!(matcher.matches("Pow_helper"));
    assert!(!matcher.matches("main"));
    assert!(!matcher.matches("wp"));
}

#[test]
fn tokens_must_not_overlap() {
    let matcher = SymbolMatcher::new("ab bc");
    assert!(!matcher.matches("abc"));
    assert!(matcher.matches("abbc"));
    assert!(matcher.matches("ab::bc"));
}

#[test]
fn token_is_found_after_a_false_start() {
    let matcher = SymbolMatcher::new("ab");
    assert!(matcher.matches("aab"));
    assert!(matcher.matches("xaXAb"));
    let repeated = SymbolMatcher::new("aab");
    assert!(repeated.matches("aaab"));
}

#[test]
fn matching_ignores_ascii_case_of_needle_and_name() {
    let names = ["core::fmt::Write::write_fmt", "CORE::FMT::WRITE::WRITE_FMT", "cOrE::fMt::wRiTe"];
    let needles = ["fmt::write", "FMT::WRITE", "Fmt wRITE"];
    for needle in needles {
        let matcher = SymbolMatcher::new(needle);
        for name in names {
            assert!(matcher.matches(name));
        }
        assert!(!matcher.matches("core::fmt::Read"));
        assert!(!matcher.matches("CORE::FMT::READ"));
    }
}

#[test]
fn matching_does_not_fold_other_letters() {
    let matcher = SymbolMatcher::new("k");
    assert!(matcher.matches("K"));
    assert!(!matcher.matches("\u{212A}"));
    assert!(matcher.matches("blöck"));
    let name = SymbolMatcher::new("stra");
    assert!(name.matches("Straße"));
    assert!(!name.matches("ße"));
}

#[test]
fn empty_needle_matches_every_name() {
    for needle in ["", "  ", "::", "123", "+-*"] {
        let matcher = SymbolMatcher::new(needle);
        assert!(matcher.matches(""));
        assert!(matcher.matches("main"));
    }
}

#[test]
fn tokens_are_runs_of_identifier_characters() {
    assert_eq!(tokens_of("core::fmt write_fmt"), vec!["core", "fmt", "write_fmt"]);
    assert_eq!(tokens_of("_a1-b2"), vec!["_a1", "b2"]);
    assert_eq!(tokens_of(""), Vec::<String>::new());
    assert_eq!(tokens_of("<T as U>::f"), vec!["T", "as", "U", "f"]);
}

#[test]
fn token_does_not_begin_with_a_digit() {
    assert_eq!(tokens_of("9abc"), vec!["abc"]);
    assert_eq!(tokens_of("123"), Vec::<String>::new());
    assert_eq!(tokens_of("a9 9a"), vec!["a9", "a"]);
    assert_eq!(tokens_of("x é y"), vec!["x", "y"]);
}

#[test]
fn tokenize_appends_to_the_tokens_given() {
    let mut tokens = vec![vec!['x']];
    SymbolMatcher::tokenize(&"a b".chars().collect(), &mut tokens);
    assert_eq!(tokens, vec![vec!['x'], vec!['a'], vec!['b']]);
}

#[test]
fn find_ignore_case_gives_first_place_and_its_end() {
    let hay: Vec<char> = "fooBarbar".chars().collect();
    let needle: Vec<char> = "bar".chars().collect();
    assert_eq!(SymbolMatcher::find_ignore_case(&hay, 0, &needle), Some((3, 6)));
    assert_eq!(SymbolMatcher::find_ignore_case(&hay, 4, &needle), Some((6, 9)));
    assert_eq!(SymbolMatcher::find_ignore_case(&hay, 7, &needle), None);
    assert_eq!(SymbolMatcher::find_ignore_case(&hay, 20, &needle), None);
    assert_eq!(SymbolMatcher::find_ignore_case(&hay, 2, &Vec::new()), Some((2, 2)));
    assert_eq!(SymbolMatcher::find_ignore_case(&hay, 9, &Vec::new()), Some((9, 9)));
}

#[test]
fn identifier_characters() {
    assert!(SymbolMatcher::is_ident_start('_'));
    assert!(SymbolMatcher::is_ident_start('a'));
    assert!(SymbolMatcher::is_ident_start('Z'));
    assert!(!SymbolMatcher::is_ident_start('0'));
    assert!(!SymbolMatcher::is_ident_start(':'));
    assert!(!SymbolMatcher::is_ident_start('é'));
    assert!(SymbolMatcher::is_ident_part('0'));
    assert!(SymbolMatcher::is_ident_part('_'));
    assert!(SymbolMatcher::is_ident_part('q'));
    assert!(!SymbolMatcher::is_ident_part('-'));
    assert!(!SymbolMatcher::is_ident_part(' '));
}
