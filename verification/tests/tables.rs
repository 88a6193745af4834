use wolfram_expr::symbol::{Context, Symbol};
use wolfram_expr::SymbolTable;

fn table() -> SymbolTable {
    SymbolTable::new(
        Context::new("Internal`"),
        vec![Context::global(), Context::system()],
    )
}

#[test]
fn test_add_and_remove() {
    let mut t = table();
    let x = Symbol::new("Global`x");
    assert!(t.add_symbol(x.clone()));
    // a second add reports that the name group already held it
    assert!(!t.add_symbol(x.clone()));
    t.remove_symbol(&x);
    // adding again still reports the group membership, which removal keeps
    assert!(!t.add_symbol(x));
}

#[test]
fn test_is_visible() {
    let t = table();
    assert!(t.is_visible(&Symbol::new("Internal`x")));
    assert!(t.is_visible(&Symbol::new("Global`x")));
    assert!(t.is_visible(&Symbol::new("System`Plus")));
    assert!(!t.is_visible(&Symbol::new("Other`x")));
    assert!(!t.is_visible(&Symbol::new("Internal`Sub`x")));
}

#[test]
fn test_parse_from_source_absolute_and_relative() {
    let mut t = table();
    let abs = t.parse_from_source("Other`thing").unwrap();
    assert_eq!(abs.as_str(), "Other`thing");
    // a relative symbol is qualified with the current context
    let rel = t.parse_from_source("`y`x").unwrap();
    assert_eq!(rel.as_str(), "Internal`y`x");
    // malformed text is rejected
    assert!(t.parse_from_source("5foo").is_none());
    assert!(t.parse_from_source("foo``bar").is_none());
    assert!(t.parse_from_source("").is_none());
}

#[test]
fn test_parse_from_source_bare_names() {
    let mut t = table();
    // an unknown bare name resolves into the current context
    let fresh = t.parse_from_source("newname").unwrap();
    assert_eq!(fresh.as_str(), "Internal`newname");
    // a recorded symbol on the search path wins over the current context
    t.add_symbol(Symbol::new("Global`known"));
    let found = t.parse_from_source("known").unwrap();
    assert_eq!(found.as_str(), "Global`known");
    // a recorded symbol off the path does not; the name is qualified instead
    t.add_symbol(Symbol::new("Elsewhere`hidden"));
    let missed = t.parse_from_source("hidden").unwrap();
    assert_eq!(missed.as_str(), "Internal`hidden");
}
