use wolfram_expr::{Expr, Symbol};

#[test]
fn test_display_atoms() {
    assert_eq!(Expr::from(42).display_string(), "42");
    assert_eq!(Expr::from(-42).display_string(), "-42");
    assert_eq!(Expr::from(0).display_string(), "0");
    assert_eq!(
        Expr::symbol(Symbol::new("System`Plus")).display_string(),
        "System`Plus"
    );
    // strings are escaped so that a reader can take them back in
    assert_eq!(Expr::from("hello").display_string(), "\"hello\"");
    assert_eq!(Expr::from("say \"hi\"").display_string(), "\"say \\\"hi\\\"\"");
}

#[test]
fn test_display_curried_applications() {
    let sin = Expr::symbol(Symbol::new("System`Sin"));
    let once = Expr::normal(sin, vec![Expr::from(1)]);
    assert_eq!(once.display_string(), "System`Sin[1]");
    let twice = Expr::normal(once, vec![Expr::from(2)]);
    assert_eq!(twice.display_string(), "System`Sin[1][2]");
    let thrice = Expr::normal(twice, vec![Expr::from(3)]);
    assert_eq!(thrice.display_string(), "System`Sin[1][2][3]");
}

#[test]
fn test_display_lists_and_rules() {
    let list = Expr::list(vec![Expr::from(1), Expr::from(2), Expr::from(3)]);
    assert_eq!(list.display_string(), "System`List[1, 2, 3]");
    let rule = Expr::rule(Expr::symbol(Symbol::new("System`FontSize")), Expr::from(16));
    assert_eq!(rule.display_string(), "System`Rule[System`FontSize, 16]");
    let empty = Expr::normal(Expr::symbol(Symbol::new("Global`f")), vec![]);
    assert_eq!(empty.display_string(), "Global`f[]");
}

#[test]
fn test_display_distinguishes_values() {
    // the rendered text keeps enough to rebuild a structurally equal tree
    let a = Expr::list(vec![Expr::from(1), Expr::from(2)]);
    let b = Expr::list(vec![Expr::from(12)]);
    assert_ne!(a.display_string(), b.display_string());
    let sym = Expr::symbol(Symbol::new("Global`x"));
    let text = Expr::from("Global`x");
    assert_ne!(sym.display_string(), text.display_string());
}
