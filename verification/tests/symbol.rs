use cargo_asm::symbol::{
    copy_range, demangle_name, rust_impl_fragment, rust_symbol_fragments, Symbol,
};

fn fragments_of(name: &str) -> Vec<String> {
    let mut fragments = rust_symbol_fragments(name);
    let mut out = Vec::new();
    while let Some(fragment) = fragments.next() {
        out.push(fragment.into_iter().collect());
    }
    out
}

fn shown(fragment: &str) -> (bool, String) {
    let (is_impl, text) = rust_impl_fragment(&fragment.chars().collect());
    (is_impl, text.into_iter().collect())
}

fn short(demangled: &str) -> String {
    let mut symbol = Symbol::new("x", 0, 0, 0);
    symbol.demangled_name = demangled.to_string();
    symbol.short_demangled_name()
}

#[test]
fn name_that_is_not_mangled_stays_as_it_is() {
    for name in ["main", "pow", "", "la la la", "_start", "foo::bar", "_Z", "héllo"] {
        assert_eq!(demangle_name(name), name);
    }
}

#[test]
fn rust_name_is_demangled_without_its_hash() {
    assert_eq!(
        demangle_name("_ZN4core3fmt5Write9write_fmt17h0123456789abcdefE"),
        "core::fmt::Write::write_fmt"
    );
    assert_eq!(demangle_name("_ZN3foo3barE"), "foo::bar");
    assert_eq!(demangle_name("_RNvC6_123foo3bar"), "123foo::bar");
}

#[test]
fn cpp_name_is_demangled() {
    assert_eq!(demangle_name("_ZN5space3fooEibc"), "space::foo(int, bool, char)");
    assert_eq!(demangle_name("_Z3powii"), "pow(int, int)");
}

#[test]
fn demangling_agrees_with_the_demanglers() {
    let rust = "_ZN4core3fmt5Write9write_fmt17h0123456789abcdefE";
    assert_eq!(
        demangle_name(rust),
        format!("{:#}", rustc_demangle::try_demangle(rust).unwrap())
    );
    let cpp = "_ZN5space3fooEibc";
    assert!(rustc_demangle::try_demangle(cpp).is_err());
    assert_eq!(demangle_name(cpp), cpp_demangle::Symbol::new(cpp).unwrap().demangle().unwrap());
    assert!(rustc_demangle::try_demangle("main").is_err());
    assert!(cpp_demangle::Symbol::new("main").is_err());
}

#[test]
fn new_symbol_carries_both_names() {
    let symbol = Symbol::new("_ZN3foo3barE", 0x1140, 0x140, 0x20);
    assert_eq!(symbol.original_name, "_ZN3foo3barE");
    assert_eq!(symbol.demangled_name, "foo::bar");
    assert_eq!(symbol.addr, 0x1140);
    assert_eq!(symbol.offset, 0x140);
    assert_eq!(symbol.size, 0x20);
    assert_eq!(symbol.offset_range(), 0x140..0x160);
}

#[test]
fn fragments_are_split_at_double_colons() {
    assert_eq!(fragments_of("core::fmt::Write"), vec!["core", "fmt", "Write"]);
    assert_eq!(fragments_of("main"), vec!["main"]);
    assert_eq!(fragments_of(""), Vec::<String>::new());
    assert_eq!(fragments_of("a::"), vec!["a"]);
    assert_eq!(fragments_of("::a"), vec!["", "a"]);
    assert_eq!(fragments_of("a:b"), vec!["a:b"]);
    assert_eq!(fragments_of("a:::b"), vec!["a", ":b"]);
}

#[test]
fn fragments_are_not_split_inside_brackets() {
    assert_eq!(
        fragments_of("alloc::vec::Vec<core::option::Option<u8>>::push"),
        vec!["alloc", "vec", "Vec<core::option::Option<u8>>", "push"]
    );
    assert_eq!(fragments_of("a<b::c"), vec!["a<b::c"]);
    assert_eq!(fragments_of("a>::b"), vec!["a>", "b"]);
    assert_eq!(fragments_of("<a::b>::c"), vec!["<a::b>", "c"]);
}

#[test]
fn impl_fragment_shows_the_type_behind_impl() {
    assert_eq!(
        shown("<impl anyhow::Context<T,E> for core::result::Result<T,E>>"),
        (true, "anyhow::Context".to_string())
    );
    assert_eq!(shown("impl Foo"), (true, "Foo".to_string()));
    assert_eq!(shown("impl "), (true, String::new()));
    assert_eq!(shown("ximpl a_b9:: c"), (true, "a_b9::".to_string()));
    assert_eq!(shown("with_context"), (false, "with_context".to_string()));
    assert_eq!(shown("impl"), (false, "impl".to_string()));
    assert_eq!(shown(""), (false, String::new()));
}

#[test]
fn short_name_begins_anew_at_an_impl() {
    assert_eq!(
        short("anyhow::context::<impl anyhow::Context<T,E> for core::result::Result<T,E>>::with_context"),
        "anyhow::Context::with_context"
    );
    assert_eq!(short("core::fmt::Write::write_fmt"), "core::fmt::Write::write_fmt");
    assert_eq!(short("std::ops::drop"), "std::ops::drop");
    assert_eq!(short("main"), "main");
    assert_eq!(short(""), "");
    assert_eq!(short("a::<impl b::C for d::E>::f::<impl g::H for I>::j"), "g::H::j");
}

#[test]
fn short_name_skips_no_separator_after_an_empty_start() {
    assert_eq!(short("::a::b"), "a::b");
    assert_eq!(short("a::<impl >::b"), "b");
}

#[test]
fn range_of_characters_is_copied() {
    let chars: Vec<char> = "hello".chars().collect();
    assert_eq!(copy_range(&chars, 1, 4), vec!['e', 'l', 'l']);
    assert_eq!(copy_range(&chars, 5, 5), Vec::<char>::new());
}
