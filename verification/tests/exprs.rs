use std::collections::hash_map::DefaultHasher;
use std::hash::{Hash, Hasher};

use wolfram_expr::{Expr, ExprKind, ExprRefCmp, F64Bits, Normal, Number, Symbol};

fn hash_of<T: Hash>(value: &T) -> u64 {
    let mut hasher = DefaultHasher::new();
    value.hash(&mut hasher);
    hasher.finish()
}

fn list_123() -> Expr {
    Expr::list(vec![Expr::from(1), Expr::from(2), Expr::from(3)])
}

#[test]
fn test_structural_equality_and_hash() {
    // two independently built trees with the same shape and leaves
    let a = list_123();
    let b = Expr::normal(
        Expr::symbol(Symbol::new("System`List")),
        vec![Expr::from(1), Expr::from(2), Expr::from(3)],
    );
    assert_eq!(a, b);
    assert_eq!(hash_of(&a), hash_of(&b));

    let c = Expr::list(vec![Expr::from(1), Expr::from(2), Expr::from(4)]);
    assert_ne!(a, c);

    let deep1 = Expr::rule(Symbol::new("System`FontSize").into(), Expr::from(16));
    let deep2 = Expr::rule(Symbol::new("System`FontSize").into(), Expr::from(16));
    assert_eq!(deep1, deep2);
    assert_eq!(hash_of(&deep1), hash_of(&deep2));
}

#[test]
fn test_reference_identity_distinctness() {
    let a = list_123();
    let b = list_123();
    assert_eq!(a, b);
    let ra = ExprRefCmp(a.clone());
    let rb = ExprRefCmp(b);
    // value-equal but separately allocated: pointer comparison is false
    assert!(!ra.ptr_eq(&rb));
    // a clone shares the allocation: pointer comparison is true
    let rc = ExprRefCmp(a.clone());
    assert!(ra.ptr_eq(&rc));
}

#[test]
fn test_copy_on_write_isolation() {
    let b = list_123();
    let mut a = b.clone();
    assert!(b.ref_count() >= 2);
    // mutate through the mutable-access path
    *a.kind_mut() = ExprKind::Integer(99);
    assert_eq!(a, Expr::from(99));
    // the original is untouched
    assert_eq!(b, list_123());
}

#[test]
fn test_to_kind_round_trip() {
    let a = list_123();
    let kind = a.to_kind();
    let back = Expr::new(kind);
    assert_eq!(back, list_123());
}

#[test]
fn test_tag() {
    assert_eq!(Expr::from(5).tag(), None);
    assert_eq!(Expr::from("hello").tag(), None);
    let foo = Symbol::new("Global`foo");
    assert_eq!(Expr::symbol(foo.clone()).tag(), Some(foo.clone()));
    let f = Expr::normal(Expr::symbol(foo.clone()), vec![Expr::from(1)]);
    assert_eq!(f.tag(), Some(foo.clone()));
    // peels through curried heads
    let g = Expr::normal(f, vec![Expr::from(2)]);
    assert_eq!(g.tag(), Some(foo));
    // but not through non-symbol heads
    let h = Expr::normal(Expr::from(1), vec![Expr::from(2)]);
    assert_eq!(h.tag(), None);
}

#[test]
fn test_normal_accessors() {
    let list = list_123();
    let head = list.normal_head().unwrap();
    assert_eq!(head, Expr::symbol(Symbol::new("System`List")));
    assert_eq!(list.normal_part(0), Some(&Expr::from(1)));
    assert_eq!(list.normal_part(2), Some(&Expr::from(3)));
    assert_eq!(list.normal_part(3), None);
    assert_eq!(Expr::from(7).normal_part(0), None);
    assert_eq!(Expr::from(7).normal_head(), None);

    let list_sym = Symbol::new("System`List");
    assert!(list.has_normal_head(&list_sym));
    assert!(!Expr::from(7).has_normal_head(&list_sym));

    let normal = list.try_as_normal().unwrap();
    assert_eq!(normal.head(), &Expr::symbol(Symbol::new("System`List")));
    assert_eq!(normal.elements().len(), 3);
    assert_eq!(normal.clone().into_elements(), vec![
        Expr::from(1),
        Expr::from(2),
        Expr::from(3),
    ]);
}

#[test]
fn test_head() {
    assert_eq!(Expr::from(1).head(), Expr::symbol(Symbol::new("System`Integer")));
    assert_eq!(Expr::from("s").head(), Expr::symbol(Symbol::new("System`String")));
    assert_eq!(
        Expr::symbol(Symbol::new("Global`x")).head(),
        Expr::symbol(Symbol::new("System`Symbol"))
    );
    let real = Expr::real_atom(F64Bits::try_new(2.5f64.to_bits()).unwrap());
    assert_eq!(real.head(), Expr::symbol(Symbol::new("System`Real")));
    let list = list_123();
    assert_eq!(list.head(), Expr::symbol(Symbol::new("System`List")));
}

#[test]
fn test_conversions() {
    assert_eq!(Expr::from(true), Expr::symbol(Symbol::new("System`True")));
    assert_eq!(Expr::from(false), Expr::symbol(Symbol::new("System`False")));
    assert_eq!(Expr::from(true).try_as_bool(), Some(true));
    assert_eq!(Expr::from(false).try_as_bool(), Some(false));
    assert_eq!(Expr::from(1).try_as_bool(), None);

    assert_eq!(Expr::from("text").try_as_str(), Some("text"));
    assert_eq!(Expr::from(1).try_as_str(), None);

    let sym = Symbol::new("Global`x");
    assert_eq!(Expr::symbol(sym.clone()).try_as_symbol(), Some(&sym));
    assert_eq!(Expr::from(1).try_as_symbol(), None);

    assert_eq!(Expr::from(42).try_as_number(), Some(Number::Integer(42)));
    assert_eq!(Expr::from("x").try_as_number(), None);
    let bits = F64Bits::try_new(1.5f64.to_bits()).unwrap();
    assert_eq!(Expr::real_atom(bits).try_as_number(), Some(Number::Real(bits)));

    assert_eq!(Expr::from(7u8), Expr::from(7i64));
    assert_eq!(Expr::from(-3i32), Expr::from(-3i64));
    assert_eq!(Expr::null(), Expr::symbol(Symbol::new("System`Null")));
}

#[test]
fn test_nan_bits_are_rejected() {
    assert!(F64Bits::try_new(f64::NAN.to_bits()).is_none());
    assert!(F64Bits::try_new(2.5f64.to_bits()).is_some());
    assert!(F64Bits::try_new(f64::INFINITY.to_bits()).is_some());
    let bits = F64Bits::try_new((-0.0f64).to_bits()).unwrap();
    assert_eq!(bits.bits(), (-0.0f64).to_bits());
}

#[test]
fn test_rule_and_rule_delayed() {
    let rule = Expr::rule(Expr::symbol(Symbol::new("System`FontSize")), Expr::from(16));
    assert!(rule.has_normal_head(&Symbol::new("System`Rule")));
    assert_eq!(rule.normal_part(0), Some(&Expr::symbol(Symbol::new("System`FontSize"))));
    assert_eq!(rule.normal_part(1), Some(&Expr::from(16)));

    let delayed = Expr::rule_delayed(
        Expr::symbol(Symbol::new("Global`x")),
        Expr::normal(Expr::symbol(Symbol::new("System`RandomReal")), vec![]),
    );
    assert!(delayed.has_normal_head(&Symbol::new("System`RuleDelayed")));
}

#[test]
fn test_normal_type() {
    let n = Normal::new(Expr::symbol(Symbol::new("Global`f")), vec![Expr::from(1)]);
    let m = Normal::new(Expr::symbol(Symbol::new("Global`f")), vec![Expr::from(1)]);
    assert_eq!(n, m);
    assert!(n.has_head(&Symbol::new("Global`f")));
    assert!(!n.has_head(&Symbol::new("Global`g")));
    let e = Expr::from(n);
    assert_eq!(e.tag(), Some(Symbol::new("Global`f")));
}

#[test]
fn test_errors() {
    let err = wolfram_expr::WolframError::runtime_error("something went wrong");
    assert_eq!(err.message(), "something went wrong");
    let wolfram_expr::WolframErrorKind::RuntimeError { message } = err.get_kind();
    assert_eq!(message, "something went wrong");

    let mut err2 = err.clone();
    *err2.mut_kind() = wolfram_expr::WolframErrorKind::RuntimeError {
        message: String::from("other"),
    };
    assert_eq!(err2.message(), "other");
    assert_eq!(err.message(), "something went wrong");

    let err3 = wolfram_expr::WolframError::with_kind(wolfram_expr::WolframErrorKind::RuntimeError {
        message: String::from("boom"),
    });
    assert_eq!(err3.message(), "boom");
}
