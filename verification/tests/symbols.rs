use wolfram_expr::symbol::{Context, Symbol, SymbolName, SymbolNameRef};

#[test]
fn test_symbol_decomposition() {
    let sym = Symbol::new("System`Plus");
    assert_eq!(sym.as_str(), "System`Plus");
    assert_eq!(sym.context().as_str(), "System`");
    assert_eq!(sym.symbol_name().as_str(), "Plus");

    let nested = Symbol::new("A`B`c");
    assert_eq!(nested.context().as_str(), "A`B`");
    assert_eq!(nested.symbol_name().as_str(), "c");
}

#[test]
fn test_symbol_equality_is_by_text() {
    let a = Symbol::new("Global`x");
    let b = Symbol::try_new("Global`x").unwrap();
    let c = Symbol::new("Global`y");
    assert_eq!(a, b);
    assert_ne!(a, c);
    assert_eq!(a.clone(), b);
}

#[test]
fn test_well_known_contexts() {
    assert_eq!(Context::global().as_str(), "Global`");
    assert_eq!(Context::system().as_str(), "System`");
}

#[test]
fn test_context_join() {
    let context = Context::from_symbol_name(&SymbolName::try_new("MyContext").unwrap());
    assert_eq!(context.as_str(), "MyContext`");
    let private = context.join(SymbolNameRef::try_new("Private").unwrap());
    assert!(private.as_str() == "MyContext`Private`");
}

#[test]
fn test_try_new_rejects() {
    assert!(Symbol::try_new("Plus").is_none());
    assert!(Symbol::try_new("`Plus").is_none());
    assert!(Symbol::try_new("123").is_none());
    assert!(SymbolName::try_new("System`Plus").is_none());
    assert!(Context::try_new("System`Plus").is_none());
    assert!(Context::try_new("System").is_none());
}

#[test]
fn test_symbol_ref_round_trip() {
    let sym_ref = wolfram_expr::symbol::SymbolRef::try_new("System`List").unwrap();
    assert_eq!(sym_ref.as_str(), "System`List");
    let owned = sym_ref.to_symbol();
    assert_eq!(owned.as_str(), "System`List");
    assert_eq!(owned.as_symbol_ref().as_str(), "System`List");
}
