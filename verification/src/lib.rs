//! Symbolic expressions of a Lisp-like term language: an immutable,
//! structurally shared expression tree, a validated symbol and namespace
//! model, and a binary wire-format encoder for the tree.

pub mod display;
pub mod error;
pub mod expr;
pub mod grammar;
pub mod ptr_cmp;
pub mod symbol;
pub mod symbol_table;
pub mod wxf;

pub use crate::error::WolframError;
pub use crate::error::WolframErrorKind;
pub use crate::expr::Expr;
pub use crate::expr::ExprKind;
pub use crate::expr::ExprView;
pub use crate::expr::F64Bits;
pub use crate::expr::Normal;
pub use crate::expr::Number;
pub use crate::ptr_cmp::ExprRefCmp;
pub use crate::symbol::Symbol;
pub use crate::symbol_table::SymbolTable;
