//! The expression tree: an immutable, reference-counted handle to a tagged
//! union of atoms and applied ("normal") forms.
//!
//! Cloning an [`Expr`] copies a pointer and adjusts a reference count; the
//! tree underneath is shared. Mutation goes through [`Expr::kind_mut`], which
//! clones the node first when it is shared, so no other holder ever observes
//! a change.

use vstd::prelude::*;

use std::sync::Arc;

use crate::symbol::Symbol;

verus! {

/// The mathematical value of an expression: the tree itself.
pub enum ExprView {
    Integer(i64),
    /// The IEEE 754 bit pattern of the value; never a NaN pattern.
    Real(u64),
    String(Seq<char>),
    /// The full qualified text of the symbol.
    Symbol(Seq<char>),
    Normal { head: Box<ExprView>, contents: Seq<ExprView> },
}

/// A 64-bit IEEE 754 value held as its bit pattern, guaranteed by
/// construction not to be a NaN pattern.
#[derive(Debug, Clone, Copy, PartialEq, Eq, Structural, Hash)]
pub struct F64Bits {
    bits: u64,
}

/// Whether `bits` is an IEEE 754 NaN pattern: exponent all ones and a
/// non-zero mantissa.
pub open spec fn is_nan_bits(bits: u64) -> bool {
    (bits >> 52) & 0x7ff == 0x7ff && bits & 0xf_ffff_ffff_ffff != 0
}

impl F64Bits {
    #[verifier::type_invariant]
    spec fn wf(self) -> bool {
        !is_nan_bits(self.bits)
    }

    /// Accept any bit pattern except NaN.
    pub fn try_new(bits: u64) -> (r: Option<F64Bits>)
        ensures
            r is Some <==> !is_nan_bits(bits),
            r matches Some(v) ==> v@ == bits,
    {
        if (bits >> 52) & 0x7ff == 0x7ff && bits & 0xf_ffff_ffff_ffff != 0 {
            None
        } else {
            Some(F64Bits { bits })
        }
    }

    /// Wrap a bit pattern the caller knows is not NaN.
    pub fn new(bits: u64) -> (r: F64Bits)
        requires
            !is_nan_bits(bits),
        ensures
            r@ == bits,
    {
        F64Bits { bits }
    }

    /// The raw bit pattern.
    pub fn bits(&self) -> (r: u64)
        ensures
            r == self@,
            !is_nan_bits(r),
    {
        proof {
            use_type_invariant(self);
        }
        self.bits
    }
}

impl View for F64Bits {
    type V = u64;

    closed spec fn view(&self) -> u64 {
        self.bits
    }
}

/// Expression variants: the atoms, and the applied form.
#[derive(Debug, Hash)]
pub enum ExprKind {
    Integer(i64),
    Real(F64Bits),
    String(String),
    Symbol(Symbol),
    Normal(Normal),
}

/// An applied ("normal") form `head[e1, e2, ...]`: a head expression and an
/// ordered argument list. The head may itself be any expression, so curried
/// applications `f[x][y]` nest naturally.
#[derive(Debug, Hash)]
pub struct Normal {
    pub(crate) head: Expr,
    pub(crate) contents: Vec<Expr>,
}

/// An immutable, reference-counted handle to an [`ExprKind`]. Cloning is
/// cheap and never copies the tree.
#[derive(Debug, Hash)]
pub struct Expr {
    pub(crate) inner: Arc<ExprKind>,
}

impl View for Expr {
    type V = ExprView;

    closed spec fn view(&self) -> ExprView
        decreases self,
    {
        kind_view(*self.inner)
    }
}

/// The value of each expression in a sequence.
pub open spec fn exprs_view(s: Seq<Expr>) -> Seq<ExprView>
    decreases s,
{
    if s.len() == 0 {
        Seq::empty()
    } else {
        seq![s[0]@] + exprs_view(s.subrange(1, s.len() as int))
    }
}

/// `exprs_view` maps the sequence element by element.
pub proof fn lemma_exprs_view(s: Seq<Expr>)
    ensures
        exprs_view(s).len() == s.len(),
        forall|i: int| 0 <= i < s.len() ==> exprs_view(s)[i] == #[trigger] s[i]@,
    decreases s.len(),
{
    if s.len() > 0 {
        let t = s.subrange(1, s.len() as int);
        lemma_exprs_view(t);
        assert(exprs_view(s) == seq![s[0]@] + exprs_view(t));
        assert forall|i: int| 0 <= i < s.len() implies exprs_view(s)[i] == #[trigger] s[i]@ by {
            if i > 0 {
                assert(exprs_view(s)[i] == exprs_view(t)[i - 1]);
                assert(t[i - 1] == s[i]);
            }
        }
    } else {
        assert(exprs_view(s) == Seq::<ExprView>::empty());
    }
}

impl View for Normal {
    type V = ExprView;

    closed spec fn view(&self) -> ExprView
        decreases self,
    {
        ExprView::Normal { head: Box::new(self.head@), contents: exprs_view(self.contents@) }
    }
}

/// The value of an [`ExprKind`].
pub open spec fn kind_view(k: ExprKind) -> ExprView
    decreases k,
{
    match k {
        ExprKind::Integer(i) => ExprView::Integer(i),
        ExprKind::Real(r) => ExprView::Real(r@),
        ExprKind::String(s) => ExprView::String(s@),
        ExprKind::Symbol(s) => ExprView::Symbol(s@),
        ExprKind::Normal(n) => n@,
    }
}

impl View for ExprKind {
    type V = ExprView;

    open spec fn view(&self) -> ExprView {
        kind_view(*self)
    }
}

/// Relies on `Arc::try_unwrap`: it returns the inner value when this handle
/// is the only owner, and otherwise hands the argument back untouched.
#[verifier::external_body]
fn arc_try_unwrap(a: Arc<ExprKind>) -> (r: Result<ExprKind, Arc<ExprKind>>)
    ensures
        match r {
            Ok(k) => k == a,
            Err(e) => e == a,
        },
{
    Arc::try_unwrap(a)
}

/// Relies on `Arc::make_mut`: it clones the inner value into a fresh
/// allocation when the handle is shared, leaves it in place when unique, and
/// either way yields a unique mutable reference to an equal value.
#[verifier::external_body]
fn arc_make_mut(a: &mut Arc<ExprKind>) -> (r: &mut ExprKind)
    ensures
        *r == **old(a),
        **final(a) == *final(r),
{
    Arc::make_mut(a)
}

/// Relies on `Arc::strong_count`: it counts the live handles to the
/// allocation, of which the argument is one.
#[verifier::external_body]
fn arc_strong_count(a: &Arc<ExprKind>) -> (r: usize)
    ensures
        r >= 1,
{
    Arc::strong_count(a)
}

impl Clone for ExprKind {
    fn clone(&self) -> (r: Self)
        ensures
            r@ == self@,
    {
        match self {
            ExprKind::Integer(i) => ExprKind::Integer(*i),
            ExprKind::Real(v) => ExprKind::Real(*v),
            ExprKind::String(s) => ExprKind::String(s.clone()),
            ExprKind::Symbol(s) => ExprKind::Symbol(s.clone()),
            ExprKind::Normal(n) => ExprKind::Normal(n.clone()),
        }
    }
}

impl Clone for Normal {
    fn clone(&self) -> (r: Self)
        ensures
            r@ == self@,
    {
        let head = self.head.clone();
        let contents = self.contents.clone();
        proof {
            lemma_exprs_view(self.contents@);
            lemma_exprs_view(contents@);
            assert forall|i: int|
                0 <= i < contents@.len() implies exprs_view(contents@)[i] == exprs_view(
                self.contents@,
            )[i] by {
                assert(cloned::<Expr>(self.contents@[i], contents@[i]));
                assert(exprs_view(contents@)[i] == contents@[i]@);
                assert(exprs_view(self.contents@)[i] == self.contents@[i]@);
            }
            assert(exprs_view(contents@) =~= exprs_view(self.contents@));
        }
        Normal { head, contents }
    }
}

impl Clone for Expr {
    /// A new handle to the same shared tree.
    fn clone(&self) -> (r: Self)
        ensures
            r@ == self@,
    {
        Expr { inner: self.inner.clone() }
    }
}

impl Expr {
    /// Wrap a kind in a fresh handle.
    pub fn new(kind: ExprKind) -> (r: Self)
        ensures
            r@ == kind@,
    {
        Expr { inner: Arc::new(kind) }
    }

    /// Read-only view of the tagged union.
    pub fn kind(&self) -> (r: &ExprKind)
        ensures
            r@ == self@,
    {
        &*self.inner
    }

    /// Consume the handle and return the owned kind, reusing the allocation
    /// without a copy when this was the sole owner.
    pub fn to_kind(self) -> (r: ExprKind)
        ensures
            r@ == self@,
    {
        match arc_try_unwrap(self.inner) {
            Ok(kind) => kind,
            Err(arc) => (*arc).clone(),
        }
    }

    /// Mutable access to the kind. When the tree is shared this clones the
    /// node first, so other holders never observe the change.
    pub fn kind_mut(&mut self) -> (r: &mut ExprKind)
        ensures
            r@ == old(self)@,
            final(self)@ == final(r)@,
    {
        arc_make_mut(&mut self.inner)
    }

    /// The number of live handles sharing this allocation.
    pub fn ref_count(&self) -> (r: usize)
        ensures
            r >= 1,
    {
        arc_strong_count(&self.inner)
    }
}


/// Number-valued expression atoms.
#[derive(Debug, Clone, Copy, PartialEq, Eq, Structural, Hash)]
pub enum Number {
    Integer(i64),
    Real(F64Bits),
}

/// The expression value a number denotes.
pub open spec fn number_view(n: Number) -> ExprView {
    match n {
        Number::Integer(i) => ExprView::Integer(i),
        Number::Real(r) => ExprView::Real(r@),
    }
}

/// The head field of an applied form; other values are returned unchanged.
pub open spec fn view_head(v: ExprView) -> ExprView {
    match v {
        ExprView::Normal { head, contents } => *head,
        _ => v,
    }
}

/// The argument list of an applied form; empty for atoms.
pub open spec fn view_contents(v: ExprView) -> Seq<ExprView> {
    match v {
        ExprView::Normal { head, contents } => contents,
        _ => Seq::empty(),
    }
}

/// The outermost symbol an expression is tagged with: a symbol atom is its
/// own tag, an applied form takes the tag of its head, and other atoms have
/// none.
pub open spec fn tag_of(v: ExprView) -> Option<Seq<char>>
    decreases v,
{
    match v {
        ExprView::Integer(_) => None,
        ExprView::Real(_) => None,
        ExprView::String(_) => None,
        ExprView::Symbol(s) => Some(s),
        ExprView::Normal { head, contents } => tag_of(*head),
    }
}

impl Normal {
    /// Build an applied form from its head and arguments.
    pub fn new(head: Expr, contents: Vec<Expr>) -> (r: Self)
        ensures
            r@ == (ExprView::Normal {
                head: Box::new(head@),
                contents: exprs_view(contents@),
            }),
    {
        Normal { head, contents }
    }

    /// The head of this applied form.
    pub fn head(&self) -> (r: &Expr)
        ensures
            r@ == view_head(self@),
    {
        &self.head
    }

    /// The arguments of this applied form, in order.
    pub fn elements(&self) -> (r: &Vec<Expr>)
        ensures
            exprs_view(r@) == view_contents(self@),
    {
        &self.contents
    }

    /// The arguments of this applied form, by value.
    pub fn into_elements(self) -> (r: Vec<Expr>)
        ensures
            exprs_view(r@) == view_contents(self@),
    {
        self.contents
    }

    /// Whether the head of this form is exactly the symbol `sym`.
    pub fn has_head(&self, sym: &Symbol) -> (r: bool)
        ensures
            r == (view_head(self@) == ExprView::Symbol(sym@)),
    {
        match self.head.kind() {
            ExprKind::Symbol(s) => s == sym,
            _ => false,
        }
    }
}

impl Expr {
    /// Build an applied form `head[contents...]`.
    pub fn normal(head: Expr, contents: Vec<Expr>) -> (r: Self)
        ensures
            r@ == (ExprView::Normal {
                head: Box::new(head@),
                contents: exprs_view(contents@),
            }),
    {
        Expr::new(ExprKind::Normal(Normal { head, contents }))
    }

    /// Build a symbol atom.
    pub fn symbol(s: Symbol) -> (r: Self)
        ensures
            r@ == ExprView::Symbol(s@),
    {
        Expr::new(ExprKind::Symbol(s))
    }

    /// Build a number atom.
    pub fn number(num: Number) -> (r: Self)
        ensures
            r@ == number_view(num),
    {
        Expr::new(ExprKind::from(num))
    }

    /// Build a string atom.
    pub fn string(s: String) -> (r: Self)
        ensures
            r@ == ExprView::String(s@),
    {
        Expr::new(ExprKind::String(s))
    }

    /// Build a real atom from a non-NaN value.
    pub fn real_atom(value: F64Bits) -> (r: Self)
        ensures
            r@ == ExprView::Real(value@),
    {
        Expr::number(Number::Real(value))
    }

    /// The outermost symbol this expression is tagged with, peeling through
    /// nested heads; `None` for the other atoms and for non-symbol heads.
    pub fn tag(&self) -> (r: Option<Symbol>)
        ensures
            r is Some <==> tag_of(self@) is Some,
            r matches Some(sym) ==> tag_of(self@) == Some(sym@),
        decreases self@,
    {
        match self.kind() {
            ExprKind::Integer(_) => None,
            ExprKind::Real(_) => None,
            ExprKind::String(_) => None,
            ExprKind::Symbol(sym) => Some(sym.clone()),
            ExprKind::Normal(normal) => normal.head.tag(),
        }
    }

    /// The head of an applied form; `None` for atoms.
    pub fn normal_head(&self) -> (r: Option<Expr>)
        ensures
            r is Some <==> self@ is Normal,
            r matches Some(h) ==> h@ == view_head(self@),
    {
        match self.kind() {
            ExprKind::Normal(normal) => Some(normal.head.clone()),
            _ => None,
        }
    }

    /// The argument at `index_0` of an applied form, counting from zero and
    /// not including the head; `None` for atoms and out-of-range indices.
    pub fn normal_part(&self, index_0: usize) -> (r: Option<&Expr>)
        ensures
            r is Some <==> (self@ is Normal && index_0 < view_contents(self@).len()),
            r matches Some(e) ==> e@ == view_contents(self@)[index_0 as int],
    {
        match self.kind() {
            ExprKind::Normal(normal) => {
                proof {
                    lemma_exprs_view(normal.contents@);
                }
                if index_0 < normal.contents.len() {
                    Some(&normal.contents[index_0])
                } else {
                    None
                }
            },
            _ => None,
        }
    }

    /// Whether this is an applied form whose head is exactly the symbol
    /// `sym`; the head is not peeled recursively.
    pub fn has_normal_head(&self, sym: &Symbol) -> (r: bool)
        ensures
            r == (self@ is Normal && view_head(self@) == ExprView::Symbol(sym@)),
    {
        match self.kind() {
            ExprKind::Normal(normal) => normal.has_head(sym),
            _ => false,
        }
    }
}

impl From<Number> for ExprKind {
    fn from(number: Number) -> (r: ExprKind)
        ensures
            r@ == number_view(number),
    {
        match number {
            Number::Integer(int_value) => ExprKind::Integer(int_value),
            Number::Real(real_value) => ExprKind::Real(real_value),
        }
    }
}

impl vstd::std_specs::convert::FromSpecImpl<Number> for ExprKind {
    open spec fn obeys_from_spec() -> bool {
        false
    }

    open spec fn from_spec(v: Number) -> ExprKind {
        vstd::pervasive::arbitrary()
    }
}


/// The text of every well-known `` System` `` symbol matches the grammar.
#[verifier::rlimit(100)]
#[verifier::spinoff_prover]
proof fn lemma_wellknown_symbols()
    ensures
        crate::grammar::is_absolute_symbol_seq("System`Null"@),
        crate::grammar::is_absolute_symbol_seq("System`Rule"@),
        crate::grammar::is_absolute_symbol_seq("System`RuleDelayed"@),
        crate::grammar::is_absolute_symbol_seq("System`List"@),
        crate::grammar::is_absolute_symbol_seq("System`True"@),
        crate::grammar::is_absolute_symbol_seq("System`False"@),
        crate::grammar::is_absolute_symbol_seq("System`Integer"@),
        crate::grammar::is_absolute_symbol_seq("System`Real"@),
        crate::grammar::is_absolute_symbol_seq("System`String"@),
        crate::grammar::is_absolute_symbol_seq("System`Symbol"@),
{
    reveal_strlit("System`Null");
    reveal_strlit("System`Rule");
    reveal_strlit("System`RuleDelayed");
    reveal_strlit("System`List");
    reveal_strlit("System`True");
    reveal_strlit("System`False");
    reveal_strlit("System`Integer");
    reveal_strlit("System`Real");
    reveal_strlit("System`String");
    reveal_strlit("System`Symbol");
    reveal_with_fuel(crate::grammar::first_sep, 20);
    reveal_with_fuel(crate::grammar::components_of, 3);
}

/// The conceptual head of a value: atoms report the symbol naming their
/// type, and an applied form reports its own head.
pub open spec fn head_of(v: ExprView) -> ExprView {
    match v {
        ExprView::Integer(_) => ExprView::Symbol("System`Integer"@),
        ExprView::Real(_) => ExprView::Symbol("System`Real"@),
        ExprView::String(_) => ExprView::Symbol("System`String"@),
        ExprView::Symbol(_) => ExprView::Symbol("System`Symbol"@),
        ExprView::Normal { head, contents } => *head,
    }
}

impl Expr {
    /// The `` System`Null `` symbol.
    pub fn null() -> (r: Self)
        ensures
            r@ == ExprView::Symbol("System`Null"@),
    {
        proof {
            lemma_wellknown_symbols();
        }
        Expr::symbol(Symbol::new("System`Null"))
    }

    /// The conceptual head of this expression: for atoms, the symbol naming
    /// their type; for an applied form, its literal head.
    pub fn head(&self) -> (r: Expr)
        ensures
            r@ == head_of(self@),
    {
        proof {
            lemma_wellknown_symbols();
        }
        match self.kind() {
            ExprKind::Integer(_) => Expr::symbol(Symbol::new("System`Integer")),
            ExprKind::Real(_) => Expr::symbol(Symbol::new("System`Real")),
            ExprKind::String(_) => Expr::symbol(Symbol::new("System`String")),
            ExprKind::Symbol(_) => Expr::symbol(Symbol::new("System`Symbol")),
            ExprKind::Normal(normal) => normal.head.clone(),
        }
    }

    /// Build `Rule[lhs, rhs]`.
    pub fn rule(lhs: Expr, rhs: Expr) -> (r: Self)
        ensures
            r@ == (ExprView::Normal {
                head: Box::new(ExprView::Symbol("System`Rule"@)),
                contents: seq![lhs@, rhs@],
            }),
    {
        proof {
            lemma_wellknown_symbols();
        }
        let ghost lv = lhs@;
        let ghost rv = rhs@;
        let head = Expr::symbol(Symbol::new("System`Rule"));
        let contents = vec![lhs, rhs];
        proof {
            lemma_exprs_view(contents@);
            assert(exprs_view(contents@) =~= seq![lv, rv]);
        }
        Expr::normal(head, contents)
    }

    /// Build `RuleDelayed[lhs, rhs]`.
    pub fn rule_delayed(lhs: Expr, rhs: Expr) -> (r: Self)
        ensures
            r@ == (ExprView::Normal {
                head: Box::new(ExprView::Symbol("System`RuleDelayed"@)),
                contents: seq![lhs@, rhs@],
            }),
    {
        proof {
            lemma_wellknown_symbols();
        }
        let ghost lv = lhs@;
        let ghost rv = rhs@;
        let head = Expr::symbol(Symbol::new("System`RuleDelayed"));
        let contents = vec![lhs, rhs];
        proof {
            lemma_exprs_view(contents@);
            assert(exprs_view(contents@) =~= seq![lv, rv]);
        }
        Expr::normal(head, contents)
    }

    /// Build `List[elements...]`.
    pub fn list(elements: Vec<Expr>) -> (r: Self)
        ensures
            r@ == (ExprView::Normal {
                head: Box::new(ExprView::Symbol("System`List"@)),
                contents: exprs_view(elements@),
            }),
    {
        proof {
            lemma_wellknown_symbols();
        }
        Expr::normal(Expr::symbol(Symbol::new("System`List")), elements)
    }

    /// The applied form underneath, or `None` for atoms.
    pub fn try_as_normal(&self) -> (r: Option<&Normal>)
        ensures
            r is Some <==> self@ is Normal,
            r matches Some(n) ==> n@ == self@,
    {
        match self.kind() {
            ExprKind::Normal(normal) => Some(normal),
            _ => None,
        }
    }

    /// `Some(true)` for the `` System`True `` symbol, `Some(false)` for
    /// `` System`False ``, `None` otherwise.
    pub fn try_as_bool(&self) -> (r: Option<bool>)
        ensures
            r == (if self@ == ExprView::Symbol("System`True"@) {
                Some(true)
            } else if self@ == ExprView::Symbol("System`False"@) {
                Some(false)
            } else {
                None::<bool>
            }),
    {
        proof {
            lemma_wellknown_symbols();
        }
        match self.kind() {
            ExprKind::Symbol(sym) => {
                let true_sym = Symbol::new("System`True");
                if sym == &true_sym {
                    Some(true)
                } else {
                    let false_sym = Symbol::new("System`False");
                    if sym == &false_sym {
                        Some(false)
                    } else {
                        None
                    }
                }
            },
            _ => None,
        }
    }

    /// The text underneath a string atom, or `None`.
    pub fn try_as_str(&self) -> (r: Option<&str>)
        ensures
            r is Some <==> self@ is String,
            r matches Some(st) ==> self@ == ExprView::String(st@),
    {
        match self.kind() {
            ExprKind::String(text) => Some(text.as_str()),
            _ => None,
        }
    }

    /// The symbol underneath a symbol atom, or `None`.
    pub fn try_as_symbol(&self) -> (r: Option<&Symbol>)
        ensures
            r is Some <==> self@ is Symbol,
            r matches Some(sym) ==> self@ == ExprView::Symbol(sym@),
    {
        match self.kind() {
            ExprKind::Symbol(sym) => Some(sym),
            _ => None,
        }
    }

    /// The number underneath an integer or real atom, or `None`.
    pub fn try_as_number(&self) -> (r: Option<Number>)
        ensures
            r is Some <==> (self@ is Integer || self@ is Real),
            r matches Some(n) ==> number_view(n) == self@,
    {
        match self.kind() {
            ExprKind::Integer(int_value) => Some(Number::Integer(*int_value)),
            ExprKind::Real(real_value) => Some(Number::Real(*real_value)),
            _ => None,
        }
    }
}

/// Deep structural equality of two kinds.
fn kind_eq(a: &ExprKind, b: &ExprKind) -> (r: bool)
    ensures
        r == (a@ == b@),
    decreases a@, 1int,
{
    match (a, b) {
        (ExprKind::Integer(x), ExprKind::Integer(y)) => x == y,
        (ExprKind::Real(x), ExprKind::Real(y)) => x == y,
        (ExprKind::String(x), ExprKind::String(y)) => x.eq(y),
        (ExprKind::Symbol(x), ExprKind::Symbol(y)) => x == y,
        (ExprKind::Normal(m), ExprKind::Normal(n)) => normal_eq(m, n),
        _ => false,
    }
}

/// Deep structural equality of two applied forms.
fn normal_eq(m: &Normal, n: &Normal) -> (r: bool)
    ensures
        r == (m@ == n@),
    decreases m@, 0int,
{
    let ghost mv = exprs_view(m.contents@);
    let ghost nv = exprs_view(n.contents@);
    proof {
        lemma_exprs_view(m.contents@);
        lemma_exprs_view(n.contents@);
    }
    proof {
        assert(m@->head == Box::new(m.head@));
        assert(decreases_to!(m@ => m.head@));
    }
    if !kind_eq(m.head.kind(), n.head.kind()) {
        return false;
    }
    if m.contents.len() != n.contents.len() {
        return false;
    }
    let len = m.contents.len();
    let mut i: usize = 0;
    while i < len
        invariant
            i <= len,
            len == m.contents.len(),
            len == n.contents.len(),
            mv == exprs_view(m.contents@),
            nv == exprs_view(n.contents@),
            mv.len() == len,
            nv.len() == len,
            m@ is Normal,
            n@ is Normal,
            view_contents(m@) == mv,
            view_contents(n@) == nv,
            forall|k: int| 0 <= k < i ==> mv[k] == nv[k],
        decreases len - i,
    {
        proof {
            lemma_exprs_view(m.contents@);
            lemma_exprs_view(n.contents@);
            assert(mv[i as int] == m.contents@[i as int]@);
            assert(m@->contents == mv);
            assert(decreases_to!(m@ => mv));
            assert(decreases_to!(mv => mv[i as int]));
            assert(decreases_to!(m@ => m.contents@[i as int]@));
        }
        if !kind_eq(m.contents[i].kind(), n.contents[i].kind()) {
            return false;
        }
        i = i + 1;
    }
    proof {
        assert(mv =~= nv);
    }
    true
}

impl PartialEq for Expr {
    /// Structural (deep value) equality over the whole tree.
    fn eq(&self, other: &Expr) -> (r: bool) {
        kind_eq(self.kind(), other.kind())
    }
}

impl vstd::std_specs::cmp::PartialEqSpecImpl for Expr {
    open spec fn obeys_eq_spec() -> bool {
        true
    }

    open spec fn eq_spec(&self, other: &Expr) -> bool {
        self@ == other@
    }
}

impl Eq for Expr {

}

impl PartialEq for ExprKind {
    /// Structural (deep value) equality.
    fn eq(&self, other: &ExprKind) -> (r: bool) {
        kind_eq(self, other)
    }
}

impl vstd::std_specs::cmp::PartialEqSpecImpl for ExprKind {
    open spec fn obeys_eq_spec() -> bool {
        true
    }

    open spec fn eq_spec(&self, other: &ExprKind) -> bool {
        self@ == other@
    }
}

impl Eq for ExprKind {

}

impl PartialEq for Normal {
    /// Structural (deep value) equality.
    fn eq(&self, other: &Normal) -> (r: bool) {
        normal_eq(self, other)
    }
}

impl vstd::std_specs::cmp::PartialEqSpecImpl for Normal {
    open spec fn obeys_eq_spec() -> bool {
        true
    }

    open spec fn eq_spec(&self, other: &Normal) -> bool {
        self@ == other@
    }
}

impl Eq for Normal {

}


impl From<i64> for Expr {
    fn from(value: i64) -> (r: Expr)
        ensures
            r@ == ExprView::Integer(value),
    {
        Expr::number(Number::Integer(value))
    }
}

impl vstd::std_specs::convert::FromSpecImpl<i64> for Expr {
    open spec fn obeys_from_spec() -> bool {
        false
    }

    open spec fn from_spec(v: i64) -> Expr {
        vstd::pervasive::arbitrary()
    }
}


impl From<i8> for Expr {
    fn from(value: i8) -> (r: Expr)
        ensures
            r@ == ExprView::Integer(value as i64),
    {
        Expr::number(Number::Integer(value as i64))
    }
}

impl vstd::std_specs::convert::FromSpecImpl<i8> for Expr {
    open spec fn obeys_from_spec() -> bool {
        false
    }

    open spec fn from_spec(v: i8) -> Expr {
        vstd::pervasive::arbitrary()
    }
}


impl From<i16> for Expr {
    fn from(value: i16) -> (r: Expr)
        ensures
            r@ == ExprView::Integer(value as i64),
    {
        Expr::number(Number::Integer(value as i64))
    }
}

impl vstd::std_specs::convert::FromSpecImpl<i16> for Expr {
    open spec fn obeys_from_spec() -> bool {
        false
    }

    open spec fn from_spec(v: i16) -> Expr {
        vstd::pervasive::arbitrary()
    }
}


impl From<i32> for Expr {
    fn from(value: i32) -> (r: Expr)
        ensures
            r@ == ExprView::Integer(value as i64),
    {
        Expr::number(Number::Integer(value as i64))
    }
}

impl vstd::std_specs::convert::FromSpecImpl<i32> for Expr {
    open spec fn obeys_from_spec() -> bool {
        false
    }

    open spec fn from_spec(v: i32) -> Expr {
        vstd::pervasive::arbitrary()
    }
}


impl From<u8> for Expr {
    fn from(value: u8) -> (r: Expr)
        ensures
            r@ == ExprView::Integer(value as i64),
    {
        Expr::number(Number::Integer(value as i64))
    }
}

impl vstd::std_specs::convert::FromSpecImpl<u8> for Expr {
    open spec fn obeys_from_spec() -> bool {
        false
    }

    open spec fn from_spec(v: u8) -> Expr {
        vstd::pervasive::arbitrary()
    }
}


impl From<u16> for Expr {
    fn from(value: u16) -> (r: Expr)
        ensures
            r@ == ExprView::Integer(value as i64),
    {
        Expr::number(Number::Integer(value as i64))
    }
}

impl vstd::std_specs::convert::FromSpecImpl<u16> for Expr {
    open spec fn obeys_from_spec() -> bool {
        false
    }

    open spec fn from_spec(v: u16) -> Expr {
        vstd::pervasive::arbitrary()
    }
}


impl From<u32> for Expr {
    fn from(value: u32) -> (r: Expr)
        ensures
            r@ == ExprView::Integer(value as i64),
    {
        Expr::number(Number::Integer(value as i64))
    }
}

impl vstd::std_specs::convert::FromSpecImpl<u32> for Expr {
    open spec fn obeys_from_spec() -> bool {
        false
    }

    open spec fn from_spec(v: u32) -> Expr {
        vstd::pervasive::arbitrary()
    }
}


impl From<bool> for Expr {
    fn from(value: bool) -> (r: Expr)
        ensures
            r@ == (if value {
                ExprView::Symbol("System`True"@)
            } else {
                ExprView::Symbol("System`False"@)
            }),
    {
        proof {
            lemma_wellknown_symbols();
        }
        if value {
            Expr::symbol(Symbol::new("System`True"))
        } else {
            Expr::symbol(Symbol::new("System`False"))
        }
    }
}

impl vstd::std_specs::convert::FromSpecImpl<bool> for Expr {
    open spec fn obeys_from_spec() -> bool {
        false
    }

    open spec fn from_spec(v: bool) -> Expr {
        vstd::pervasive::arbitrary()
    }
}


impl From<String> for Expr {
    fn from(value: String) -> (r: Expr)
        ensures
            r@ == ExprView::String(value@),
    {
        Expr::string(value)
    }
}

impl vstd::std_specs::convert::FromSpecImpl<String> for Expr {
    open spec fn obeys_from_spec() -> bool {
        false
    }

    open spec fn from_spec(v: String) -> Expr {
        vstd::pervasive::arbitrary()
    }
}


impl From<Symbol> for Expr {
    fn from(value: Symbol) -> (r: Expr)
        ensures
            r@ == ExprView::Symbol(value@),
    {
        Expr::symbol(value)
    }
}

impl vstd::std_specs::convert::FromSpecImpl<Symbol> for Expr {
    open spec fn obeys_from_spec() -> bool {
        false
    }

    open spec fn from_spec(v: Symbol) -> Expr {
        vstd::pervasive::arbitrary()
    }
}


impl From<ExprKind> for Expr {
    fn from(value: ExprKind) -> (r: Expr)
        ensures
            r@ == value@,
    {
        Expr::new(value)
    }
}

impl vstd::std_specs::convert::FromSpecImpl<ExprKind> for Expr {
    open spec fn obeys_from_spec() -> bool {
        false
    }

    open spec fn from_spec(v: ExprKind) -> Expr {
        vstd::pervasive::arbitrary()
    }
}


impl From<&str> for Expr {
    fn from(value: &str) -> (r: Expr)
        ensures
            r@ == ExprView::String(value@),
    {
        Expr::string(String::from_str(value))
    }
}

impl vstd::std_specs::convert::FromSpecImpl<&str> for Expr {
    open spec fn obeys_from_spec() -> bool {
        false
    }

    open spec fn from_spec(v: &str) -> Expr {
        vstd::pervasive::arbitrary()
    }
}

impl From<Normal> for Expr {
    fn from(value: Normal) -> (r: Expr)
        ensures
            r@ == value@,
    {
        Expr::new(ExprKind::Normal(value))
    }
}

impl vstd::std_specs::convert::FromSpecImpl<Normal> for Expr {
    open spec fn obeys_from_spec() -> bool {
        false
    }

    open spec fn from_spec(v: Normal) -> Expr {
        vstd::pervasive::arbitrary()
    }
}


/// The shape of an applied form's value in terms of its fields.
pub(crate) proof fn lemma_normal_view(n: &Normal)
    ensures
        n@ == (ExprView::Normal {
            head: Box::new(n.head@),
            contents: exprs_view(n.contents@),
        }),
{
}

} // verus!
