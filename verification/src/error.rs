//! Errors reported while working with expressions.

use vstd::prelude::*;

verus! {

/// An error raised while processing an expression.
#[derive(Debug, Hash)]
pub struct WolframError {
    kind: Box<WolframErrorKind>,
}

/// The kind of error that occurred.
#[derive(Debug, Hash)]
pub enum WolframErrorKind {
    /// A failure at run time, described by its message.
    RuntimeError { message: String },
}

impl View for WolframErrorKind {
    type V = Seq<char>;

    open spec fn view(&self) -> Seq<char> {
        match self {
            WolframErrorKind::RuntimeError { message } => message@,
        }
    }
}

impl View for WolframError {
    type V = Seq<char>;

    closed spec fn view(&self) -> Seq<char> {
        (*self.kind)@
    }
}

impl Clone for WolframErrorKind {
    fn clone(&self) -> (r: Self)
        ensures
            r@ == self@,
    {
        match self {
            WolframErrorKind::RuntimeError { message } => WolframErrorKind::RuntimeError {
                message: message.clone(),
            },
        }
    }
}

impl Clone for WolframError {
    fn clone(&self) -> (r: Self)
        ensures
            r@ == self@,
    {
        WolframError { kind: Box::new((*self.kind).clone()) }
    }
}

impl WolframError {
    /// The kind of this error.
    pub fn get_kind(&self) -> (r: &WolframErrorKind)
        ensures
            r@ == self@,
    {
        &self.kind
    }

    /// Mutable access to the kind of this error.
    pub fn mut_kind(&mut self) -> (r: &mut WolframErrorKind)
        ensures
            r@ == old(self)@,
            final(self)@ == final(r)@,
    {
        &mut self.kind
    }

    /// Wrap a kind as an error.
    pub fn with_kind(kind: WolframErrorKind) -> (r: Self)
        ensures
            r@ == kind@,
    {
        WolframError { kind: Box::new(kind) }
    }

    /// A new runtime error carrying `message`.
    pub fn runtime_error(message: &str) -> (r: Self)
        ensures
            r@ == message@,
    {
        WolframError {
            kind: Box::new(WolframErrorKind::RuntimeError { message: String::from_str(message) }),
        }
    }

    /// The message this error carries.
    pub fn message(&self) -> (r: &str)
        ensures
            r@ == self@,
    {
        match &*self.kind {
            WolframErrorKind::RuntimeError { message } => message.as_str(),
        }
    }
}

} // verus!
