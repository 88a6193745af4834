use wolfram_expr::grammar::{is_symbol_component, parse_symbol_like, SymbolLike};
use wolfram_expr::symbol::{Context, ContextRef, RelativeContext, SymbolNameRef, SymbolRef};

#[test]
fn test_is_symbol_component() {
    assert!(is_symbol_component("foo"));
    assert!(is_symbol_component("$bar"));
}

#[test]
fn test_parse_symbol_like() {
    assert_eq!(parse_symbol_like("foo"), Some(SymbolLike::SymbolName));
}

/// `(input, is Symbol, is SymbolName, is Context, is RelativeContext)`
fn check_row(input: &str, is_symbol: bool, is_symbol_name: bool, is_context: bool, is_rel_context: bool) {
    println!("input: {input}");
    assert_eq!(SymbolRef::try_new(input).is_some(), is_symbol);
    assert_eq!(SymbolNameRef::try_new(input).is_some(), is_symbol_name);
    assert_eq!(ContextRef::try_new(input).is_some(), is_context);
    assert_eq!(RelativeContext::try_new(input).is_some(), is_rel_context);
}

#[test]
pub fn test_symbol_like_parsing() {
    let data: &[(&str, bool, bool, bool, bool)] = &[
        // Symbol-like
        ("foo`bar", true, false, false, false),
        ("foo`bar`baz", true, false, false, false),
        ("foo`bar5", true, false, false, false),
        ("foo`5bar", false, false, false, false),
        ("5foo`bar", false, false, false, false),
        ("foo``bar", false, false, false, false),
        ("foo`$bar", true, false, false, false),
        ("$foo`$bar", true, false, false, false),
        ("$foo`$$$", true, false, false, false),
        ("$$$`$$$", true, false, false, false),
        // SymbolName-like
        ("foo", false, true, false, false),
        ("foo5", false, true, false, false),
        ("foo5bar", false, true, false, false),
        ("$foo", false, true, false, false),
        ("5foo", false, false, false, false),
        ("foo_bar", false, false, false, false),
        ("_foo", false, false, false, false),
        // RelativeSymbol-like
        ("`foo", false, false, false, false),
        ("`foo`bar", false, false, false, false),
        // Context-like
        ("foo`", false, false, true, false),
        ("foo`bar`", false, false, true, false),
        // RelativeContext-like
        ("`foo`", false, false, false, true),
        ("`foo`bar`", false, false, false, true),
    ];
    for (input, is_symbol, is_symbol_name, is_context, is_rel_context) in data.iter().copied() {
        check_row(input, is_symbol, is_symbol_name, is_context, is_rel_context);
    }
}

#[test]
fn test_grammar_rejects_oddities() {
    assert_eq!(parse_symbol_like(""), None);
    // a bare separator is not a relative context: it holds no name segment
    assert_eq!(parse_symbol_like("`"), None);
    assert_eq!(parse_symbol_like("``"), None);
    assert_eq!(parse_symbol_like("foo bar"), None);
    assert_eq!(parse_symbol_like("foo-bar"), None);
    assert_eq!(parse_symbol_like("a`b"), Some(SymbolLike::AbsoluteSymbol));
    assert_eq!(parse_symbol_like("`a"), Some(SymbolLike::RelativeSymbol));
    assert_eq!(parse_symbol_like("a`"), Some(SymbolLike::AbsoluteContext));
}

#[test]
fn test_unicode_letters_are_alphabetic() {
    // the grammar takes any Unicode-alphabetic character as a letter
    assert!(is_symbol_component("caf\u{e9}"));
    assert!(!is_symbol_component("caf\u{2603}"));
}

#[test]
fn test_context_accessors() {
    let context = Context::new("MyPackage`Sub`Module`");
    let components = context.components();
    assert_eq!(components.len(), 3);
    assert_eq!(components[0].as_str(), "MyPackage");
    assert_eq!(components[1].as_str(), "Sub");
    assert_eq!(components[2].as_str(), "Module");

    let relative = RelativeContext::try_new("`Sub`Module`").unwrap();
    let components = relative.components();
    assert_eq!(components.len(), 2);
    assert_eq!(components[0].as_str(), "Sub");
    assert_eq!(components[1].as_str(), "Module");
}
