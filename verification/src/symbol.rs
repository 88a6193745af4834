//! Symbols, symbol names, contexts, and relative contexts.
//!
//! Each owned type stores a reference-counted string that is guaranteed, by
//! construction, to match its shape in the grammar; the borrowed `*Ref` types
//! carry the same guarantee for a borrowed string. Values are created only
//! through the validating constructors, and are immutable afterwards.

use vstd::prelude::*;

use std::sync::Arc;

use crate::grammar::{
    is_absolute_context_seq, is_absolute_symbol_seq, is_name_segment, is_relative_context_seq,
    is_separator, lemma_classification, parse_symbol_like, SymbolLike,
};

verus! {

/// A symbol with an explicit context path, e.g. `` System`List ``.
///
/// Two symbols are equal exactly when their string forms are equal.
#[derive(Debug, Hash)]
pub struct Symbol {
    text: Arc<String>,
}

/// The identifier portion of a symbol, with no context separators, e.g. `List`.
#[derive(Debug, Hash)]
pub struct SymbolName {
    text: Arc<String>,
}

/// A context path, e.g. `` System` `` or `` MyPackage`Utils` ``.
#[derive(Debug, Hash)]
pub struct Context {
    text: Arc<String>,
}

/// A context path relative to the current context, e.g. `` `Sub`Module` ``.
#[derive(Debug, Hash)]
pub struct RelativeContext {
    text: Arc<String>,
}

/// A borrowed string known to be a valid absolute symbol.
#[derive(Debug, Clone, Copy, Hash)]
pub struct SymbolRef<'s> {
    text: &'s str,
}

/// A borrowed string known to be a valid symbol name.
#[derive(Debug, Clone, Copy, Hash)]
pub struct SymbolNameRef<'s> {
    text: &'s str,
}

/// A borrowed string known to be a valid context.
#[derive(Debug, Clone, Copy, Hash)]
pub struct ContextRef<'s> {
    text: &'s str,
}

impl View for Symbol {
    type V = Seq<char>;

    closed spec fn view(&self) -> Seq<char> {
        self.text@
    }
}

impl View for SymbolName {
    type V = Seq<char>;

    closed spec fn view(&self) -> Seq<char> {
        self.text@
    }
}

impl View for Context {
    type V = Seq<char>;

    closed spec fn view(&self) -> Seq<char> {
        self.text@
    }
}

impl View for RelativeContext {
    type V = Seq<char>;

    closed spec fn view(&self) -> Seq<char> {
        self.text@
    }
}

impl<'s> View for SymbolRef<'s> {
    type V = Seq<char>;

    closed spec fn view(&self) -> Seq<char> {
        self.text@
    }
}

impl<'s> View for SymbolNameRef<'s> {
    type V = Seq<char>;

    closed spec fn view(&self) -> Seq<char> {
        self.text@
    }
}

impl<'s> View for ContextRef<'s> {
    type V = Seq<char>;

    closed spec fn view(&self) -> Seq<char> {
        self.text@
    }
}

impl Symbol {
    #[verifier::type_invariant]
    pub(crate) open spec fn wf(self) -> bool {
        is_absolute_symbol_seq(self@)
    }
}

impl SymbolName {
    #[verifier::type_invariant]
    pub(crate) open spec fn wf(self) -> bool {
        is_name_segment(self@)
    }
}

impl Context {
    #[verifier::type_invariant]
    pub(crate) open spec fn wf(self) -> bool {
        is_absolute_context_seq(self@)
    }
}

impl RelativeContext {
    #[verifier::type_invariant]
    pub(crate) open spec fn wf(self) -> bool {
        is_relative_context_seq(self@)
    }
}

impl<'s> SymbolRef<'s> {
    #[verifier::type_invariant]
    pub(crate) open spec fn wf(self) -> bool {
        is_absolute_symbol_seq(self@)
    }
}

impl<'s> SymbolNameRef<'s> {
    #[verifier::type_invariant]
    pub(crate) open spec fn wf(self) -> bool {
        is_name_segment(self@)
    }
}

impl<'s> ContextRef<'s> {
    #[verifier::type_invariant]
    pub(crate) open spec fn wf(self) -> bool {
        is_absolute_context_seq(self@)
    }
}

impl Clone for Symbol {
    fn clone(&self) -> (r: Self)
        ensures
            r@ == self@,
    {
        proof {
            use_type_invariant(self);
        }
        Symbol { text: self.text.clone() }
    }
}

impl Clone for SymbolName {
    fn clone(&self) -> (r: Self)
        ensures
            r@ == self@,
    {
        proof {
            use_type_invariant(self);
        }
        SymbolName { text: self.text.clone() }
    }
}

impl Clone for Context {
    fn clone(&self) -> (r: Self)
        ensures
            r@ == self@,
    {
        proof {
            use_type_invariant(self);
        }
        Context { text: self.text.clone() }
    }
}

impl Clone for RelativeContext {
    fn clone(&self) -> (r: Self)
        ensures
            r@ == self@,
    {
        proof {
            use_type_invariant(self);
        }
        RelativeContext { text: self.text.clone() }
    }
}

impl PartialEq for Symbol {
    fn eq(&self, other: &Symbol) -> (r: bool) {
        (&*self.text).eq(&*other.text)
    }
}

impl vstd::std_specs::cmp::PartialEqSpecImpl for Symbol {
    open spec fn obeys_eq_spec() -> bool {
        true
    }

    open spec fn eq_spec(&self, other: &Symbol) -> bool {
        self@ == other@
    }
}

impl Eq for Symbol {

}

impl PartialEq for SymbolName {
    fn eq(&self, other: &SymbolName) -> (r: bool) {
        (&*self.text).eq(&*other.text)
    }
}

impl vstd::std_specs::cmp::PartialEqSpecImpl for SymbolName {
    open spec fn obeys_eq_spec() -> bool {
        true
    }

    open spec fn eq_spec(&self, other: &SymbolName) -> bool {
        self@ == other@
    }
}

impl Eq for SymbolName {

}

impl PartialEq for Context {
    fn eq(&self, other: &Context) -> (r: bool) {
        (&*self.text).eq(&*other.text)
    }
}

impl vstd::std_specs::cmp::PartialEqSpecImpl for Context {
    open spec fn obeys_eq_spec() -> bool {
        true
    }

    open spec fn eq_spec(&self, other: &Context) -> bool {
        self@ == other@
    }
}

impl Eq for Context {

}

impl PartialEq for RelativeContext {
    fn eq(&self, other: &RelativeContext) -> (r: bool) {
        (&*self.text).eq(&*other.text)
    }
}

impl vstd::std_specs::cmp::PartialEqSpecImpl for RelativeContext {
    open spec fn obeys_eq_spec() -> bool {
        true
    }

    open spec fn eq_spec(&self, other: &RelativeContext) -> bool {
        self@ == other@
    }
}

impl Eq for RelativeContext {

}

impl<'s> SymbolRef<'s> {
    /// Validate `string` as an absolute symbol and borrow it.
    pub fn try_new(string: &'s str) -> (r: Option<SymbolRef<'s>>)
        ensures
            r is Some <==> is_absolute_symbol_seq(string@),
            r matches Some(sr) ==> sr@ == string@,
    {
        proof {
            lemma_classification(string@);
        }
        match parse_symbol_like(string) {
            Some(SymbolLike::AbsoluteSymbol) => Some(SymbolRef { text: string }),
            _ => None,
        }
    }

    /// The borrowed string.
    pub fn as_str(&self) -> (r: &'s str)
        ensures
            r@ == self@,
    {
        self.text
    }

    /// Copy the borrowed string into an owned [`Symbol`].
    pub fn to_symbol(&self) -> (r: Symbol)
        ensures
            r@ == self@,
    {
        proof {
            use_type_invariant(self);
        }
        Symbol { text: Arc::new(self.text.to_owned()) }
    }
}

impl<'s> SymbolNameRef<'s> {
    /// Validate `string` as a symbol name and borrow it.
    pub fn try_new(string: &'s str) -> (r: Option<SymbolNameRef<'s>>)
        ensures
            r is Some <==> is_name_segment(string@),
            r matches Some(nr) ==> nr@ == string@,
    {
        proof {
            lemma_classification(string@);
            crate::grammar::lemma_symbol_name_iff_segment(string@);
        }
        match parse_symbol_like(string) {
            Some(SymbolLike::SymbolName) => Some(SymbolNameRef { text: string }),
            _ => None,
        }
    }

    /// The borrowed string.
    pub fn as_str(&self) -> (r: &'s str)
        ensures
            r@ == self@,
    {
        self.text
    }

    /// Copy the borrowed string into an owned [`SymbolName`].
    pub fn to_symbol_name(&self) -> (r: SymbolName)
        ensures
            r@ == self@,
    {
        proof {
            use_type_invariant(self);
        }
        SymbolName { text: Arc::new(self.text.to_owned()) }
    }
}

impl<'s> ContextRef<'s> {
    /// Validate `string` as a context and borrow it.
    pub fn try_new(string: &'s str) -> (r: Option<ContextRef<'s>>)
        ensures
            r is Some <==> is_absolute_context_seq(string@),
            r matches Some(cr) ==> cr@ == string@,
    {
        proof {
            lemma_classification(string@);
        }
        match parse_symbol_like(string) {
            Some(SymbolLike::AbsoluteContext) => Some(ContextRef { text: string }),
            _ => None,
        }
    }

    /// The borrowed string.
    pub fn as_str(&self) -> (r: &'s str)
        ensures
            r@ == self@,
    {
        self.text
    }

    /// Copy the borrowed string into an owned [`Context`].
    pub fn to_context(&self) -> (r: Context)
        ensures
            r@ == self@,
    {
        proof {
            use_type_invariant(self);
        }
        Context { text: Arc::new(self.text.to_owned()) }
    }
}


impl Symbol {
    /// Validate `input` as an absolute symbol, e.g. `` "System`Plus" ``.
    pub fn try_new(input: &str) -> (r: Option<Symbol>)
        ensures
            r is Some <==> is_absolute_symbol_seq(input@),
            r matches Some(sym) ==> sym@ == input@,
    {
        match SymbolRef::try_new(input) {
            Some(sym_ref) => Some(sym_ref.to_symbol()),
            None => None,
        }
    }

    /// Construct a symbol from text the caller has already checked, meant for
    /// string literals; `try_new` is for anything derived from outside data.
    pub fn new(input: &str) -> (r: Symbol)
        requires
            is_absolute_symbol_seq(input@),
        ensures
            r@ == input@,
    {
        match Symbol::try_new(input) {
            Some(symbol) => symbol,
            None => vstd::pervasive::unreached(),
        }
    }

    /// The underlying text of the symbol.
    pub fn as_str(&self) -> (r: &str)
        ensures
            r@ == self@,
    {
        proof {
            use_type_invariant(self);
        }
        (&*self.text).as_str()
    }

    /// Borrow this symbol as a [`SymbolRef`].
    pub fn as_symbol_ref<'s>(&'s self) -> (r: SymbolRef<'s>)
        ensures
            r@ == self@,
    {
        proof {
            use_type_invariant(self);
        }
        SymbolRef { text: (&*self.text).as_str() }
    }

    /// The context path part of the symbol, up to and including the last
    /// separator.
    pub fn context<'s>(&'s self) -> (r: ContextRef<'s>)
        ensures
            r@ == self@.take(crate::grammar::last_sep(self@) + 1),
            is_absolute_symbol_seq(self@),
    {
        self.as_symbol_ref().context()
    }

    /// The name part of the symbol, after the last separator.
    pub fn symbol_name<'s>(&'s self) -> (r: SymbolNameRef<'s>)
        ensures
            r@ == self@.skip(crate::grammar::last_sep(self@) + 1),
            is_absolute_symbol_seq(self@),
    {
        self.as_symbol_ref().symbol_name()
    }
}

impl SymbolName {
    /// Validate `input` as a symbol name: a single segment, no separators.
    pub fn try_new(input: &str) -> (r: Option<SymbolName>)
        ensures
            r is Some <==> is_name_segment(input@),
            r matches Some(name) ==> name@ == input@,
    {
        match SymbolNameRef::try_new(input) {
            Some(name_ref) => Some(name_ref.to_symbol_name()),
            None => None,
        }
    }

    /// The underlying text of the name.
    pub fn as_str(&self) -> (r: &str)
        ensures
            r@ == self@,
    {
        proof {
            use_type_invariant(self);
        }
        (&*self.text).as_str()
    }

    /// Borrow this name as a [`SymbolNameRef`].
    pub fn as_symbol_name_ref<'s>(&'s self) -> (r: SymbolNameRef<'s>)
        ensures
            r@ == self@,
    {
        proof {
            use_type_invariant(self);
        }
        SymbolNameRef { text: (&*self.text).as_str() }
    }
}

impl Context {
    /// Validate `input` as a context, e.g. `` "MyPackage`" ``.
    pub fn try_new(input: &str) -> (r: Option<Context>)
        ensures
            r is Some <==> is_absolute_context_seq(input@),
            r matches Some(ctx) ==> ctx@ == input@,
    {
        match ContextRef::try_new(input) {
            Some(context_ref) => Some(context_ref.to_context()),
            None => None,
        }
    }

    /// Construct a context from text the caller has already checked, meant for
    /// string literals; `try_new` is for anything derived from outside data.
    pub fn new(input: &str) -> (r: Context)
        requires
            is_absolute_context_seq(input@),
        ensures
            r@ == input@,
    {
        match Context::try_new(input) {
            Some(context) => context,
            None => vstd::pervasive::unreached(),
        }
    }

    /// The underlying text of the context.
    pub fn as_str(&self) -> (r: &str)
        ensures
            r@ == self@,
    {
        proof {
            use_type_invariant(self);
        }
        (&*self.text).as_str()
    }

    /// Borrow this context as a [`ContextRef`].
    pub fn as_context_ref<'s>(&'s self) -> (r: ContextRef<'s>)
        ensures
            r@ == self@,
    {
        proof {
            use_type_invariant(self);
        }
        ContextRef { text: (&*self.text).as_str() }
    }

    /// The `` Global` `` context.
    pub fn global() -> (r: Context)
        ensures
            r@ == "Global`"@,
    {
        proof {
            reveal_strlit("Global`");
            reveal_with_fuel(crate::grammar::first_sep, 9);
            reveal_with_fuel(crate::grammar::components_of, 3);
            assert(is_absolute_context_seq("Global`"@));
        }
        Context { text: Arc::new(String::from_str("Global`")) }
    }

    /// The `` System` `` context.
    pub fn system() -> (r: Context)
        ensures
            r@ == "System`"@,
    {
        proof {
            reveal_strlit("System`");
            reveal_with_fuel(crate::grammar::first_sep, 9);
            reveal_with_fuel(crate::grammar::components_of, 3);
            assert(is_absolute_context_seq("System`"@));
        }
        Context { text: Arc::new(String::from_str("System`")) }
    }

    /// The context `` name` ``.
    pub fn from_symbol_name(name: &SymbolName) -> (r: Context)
        ensures
            r@ == name@ + seq!['`'],
    {
        proof {
            use_type_invariant(name);
            crate::grammar::lemma_segment_context(name@);
            reveal_strlit("`");
            assert("`"@ =~= seq!['`']);
        }
        let mut text = String::from_str((&*name.text).as_str());
        text.append("`");
        Context { text: Arc::new(text) }
    }

    /// A new context with one more name segment appended before the final
    /// separator, e.g. `` A` `` joined with `B` is `` A`B` ``.
    pub fn join(&self, name: SymbolNameRef) -> (r: Context)
        ensures
            r@ == self@ + name@ + seq!['`'],
    {
        proof {
            use_type_invariant(self);
            use_type_invariant(&name);
            crate::grammar::lemma_context_join(self@, name@);
            reveal_strlit("`");
            assert("`"@ =~= seq!['`']);
        }
        let mut text = String::from_str((&*self.text).as_str());
        text.append(name.as_str());
        text.append("`");
        Context { text: Arc::new(text) }
    }
}

impl RelativeContext {
    /// Validate `input` as a relative context, e.g. `` "`Sub`Module`" ``.
    pub fn try_new(input: &str) -> (r: Option<RelativeContext>)
        ensures
            r is Some <==> is_relative_context_seq(input@),
            r matches Some(ctx) ==> ctx@ == input@,
    {
        proof {
            lemma_classification(input@);
        }
        match parse_symbol_like(input) {
            Some(SymbolLike::RelativeContext) => Some(
                RelativeContext { text: Arc::new(input.to_owned()) },
            ),
            _ => None,
        }
    }

    /// The underlying text of the relative context.
    pub fn as_str(&self) -> (r: &str)
        ensures
            r@ == self@,
    {
        proof {
            use_type_invariant(self);
        }
        (&*self.text).as_str()
    }
}

impl<'s> SymbolRef<'s> {
    /// The context path part of the symbol, up to and including the last
    /// separator.
    pub fn context(&self) -> (r: ContextRef<'s>)
        ensures
            r@ == self@.take(crate::grammar::last_sep(self@) + 1),
            is_absolute_symbol_seq(self@),
    {
        proof {
            use_type_invariant(self);
            crate::grammar::lemma_symbol_decompose(self@);
        }
        let len = self.text.unicode_len();
        let j = crate::grammar::find_last_sep(self.text, len);
        let ctx = self.text.substring_char(0, j + 1);
        proof {
            assert(ctx@ =~= self@.take(crate::grammar::last_sep(self@) + 1));
        }
        ContextRef { text: ctx }
    }

    /// The name part of the symbol, after the last separator.
    pub fn symbol_name(&self) -> (r: SymbolNameRef<'s>)
        ensures
            r@ == self@.skip(crate::grammar::last_sep(self@) + 1),
            is_absolute_symbol_seq(self@),
    {
        proof {
            use_type_invariant(self);
            crate::grammar::lemma_symbol_decompose(self@);
        }
        let len = self.text.unicode_len();
        let j = crate::grammar::find_last_sep(self.text, len);
        let name = self.text.substring_char(j + 1, len);
        proof {
            assert(name@ =~= self@.skip(crate::grammar::last_sep(self@) + 1));
        }
        SymbolNameRef { text: name }
    }
}


impl Context {
    /// The name segments of this context, in order, without the trailing
    /// empty piece after the final separator.
    pub fn components<'s>(&'s self) -> (r: Vec<SymbolNameRef<'s>>)
        ensures
            r@.len() == crate::grammar::components_of(self@).len() - 1,
            forall|i: int|
                0 <= i < r@.len() ==> r@[i]@ == crate::grammar::components_of(self@)[i],
    {
        proof {
            use_type_invariant(self);
        }
        let text: &'s str = (&*self.text).as_str();
        let ghost cs = crate::grammar::components_of(self@);
        let len = text.unicode_len();
        let mut r: Vec<SymbolNameRef<'s>> = Vec::new();
        let mut start: usize = 0;
        let ghost mut gcount: int = 0;
        proof {
            assert(text@.skip(0) =~= text@);
        }
        while start < len
            invariant
                start <= len,
                len == text@.len(),
                text@ == self@,
                is_absolute_context_seq(self@),
                cs == crate::grammar::components_of(self@),
                crate::grammar::components_of(text@.skip(start as int)) == cs.skip(gcount),
                0 <= gcount < cs.len(),
                r@.len() == gcount,
                forall|i: int| 0 <= i < gcount ==> r@[i]@ == cs[i],
            decreases len - start,
        {
            let j = crate::grammar::next_sep(text, start, len);
            let ghost comp = if j == len {
                text@.skip(start as int)
            } else {
                text@.subrange(start as int, j as int)
            };
            proof {
                crate::grammar::lemma_components_unfold(text@, start as int, j as int);
                if j == len {
                    assert(cs.skip(gcount) == seq![comp]);
                }
                assert(cs.skip(gcount)[0] == cs[gcount]);
                assert(cs[gcount] == comp);
                assert(cs.last() == cs[cs.len() - 1]);
            }
            if j == len {
                proof {
                    assert(gcount == cs.len() - 1);
                    assert(comp == cs.last());
                    assert(comp.len() == 0);
                    assert(comp.len() == len - start);
                    assert(false);
                }
                vstd::pervasive::unreached()
            } else {
                proof {
                    assert(cs.skip(gcount).len() >= 2) by {
                        crate::grammar::lemma_components_nonempty(text@.skip(j as int + 1));
                    }
                    assert(gcount < cs.len() - 1);
                    assert(crate::grammar::all_name_segments(cs, 0, cs.len() - 1));
                    assert(is_name_segment(comp));
                }
                let piece = text.substring_char(start, j);
                proof {
                    assert(piece@ =~= comp);
                }
                r.push(SymbolNameRef { text: piece });
                start = j + 1;
                proof {
                    gcount = gcount + 1;
                    assert(cs.skip(gcount) =~= cs.skip(gcount - 1).skip(1));
                }
            }
        }
        proof {
            assert(text@.skip(len as int) =~= Seq::<char>::empty());
            crate::grammar::lemma_components_no_sep(Seq::<char>::empty());
            assert(cs.skip(gcount).len() == 1);
            assert(gcount == cs.len() - 1);
        }
        r
    }
}

impl RelativeContext {
    /// The name segments of this relative context, in order, without the
    /// leading and trailing empty pieces around the separators.
    pub fn components<'s>(&'s self) -> (r: Vec<SymbolNameRef<'s>>)
        ensures
            r@.len() == crate::grammar::components_of(self@).len() - 2,
            forall|i: int|
                0 <= i < r@.len() ==> r@[i]@ == crate::grammar::components_of(self@)[i + 1],
    {
        proof {
            use_type_invariant(self);
        }
        let text: &'s str = (&*self.text).as_str();
        let ghost cs = crate::grammar::components_of(self@);
        let len = text.unicode_len();
        proof {
            crate::grammar::lemma_first_sep_bounds(text@);
            assert(cs[0] == text@.take(crate::grammar::first_sep(text@)));
            assert(crate::grammar::first_sep(text@) == 0);
            assert(is_separator(text@[0]));
            assert(text@.skip(0) =~= text@);
            crate::grammar::lemma_components_unfold(text@, 0, 0);
            assert(cs.skip(1) == crate::grammar::components_of(text@.skip(1)));
        }
        let mut r: Vec<SymbolNameRef<'s>> = Vec::new();
        let mut start: usize = 1;
        let ghost mut gcount: int = 1;
        while start < len
            invariant
                start <= len,
                len == text@.len(),
                text@ == self@,
                is_relative_context_seq(self@),
                cs == crate::grammar::components_of(self@),
                crate::grammar::components_of(text@.skip(start as int)) == cs.skip(gcount),
                1 <= gcount < cs.len(),
                r@.len() == gcount - 1,
                forall|i: int| 0 <= i < gcount - 1 ==> r@[i]@ == cs[i + 1],
            decreases len - start,
        {
            let j = crate::grammar::next_sep(text, start, len);
            let ghost comp = if j == len {
                text@.skip(start as int)
            } else {
                text@.subrange(start as int, j as int)
            };
            proof {
                crate::grammar::lemma_components_unfold(text@, start as int, j as int);
                if j == len {
                    assert(cs.skip(gcount) == seq![comp]);
                }
                assert(cs.skip(gcount)[0] == cs[gcount]);
                assert(cs[gcount] == comp);
                assert(cs.last() == cs[cs.len() - 1]);
            }
            if j == len {
                proof {
                    assert(gcount == cs.len() - 1);
                    assert(comp == cs.last());
                    assert(comp.len() == 0);
                    assert(comp.len() == len - start);
                    assert(false);
                }
                vstd::pervasive::unreached()
            } else {
                proof {
                    assert(cs.skip(gcount).len() >= 2) by {
                        crate::grammar::lemma_components_nonempty(text@.skip(j as int + 1));
                    }
                    assert(gcount < cs.len() - 1);
                    assert(crate::grammar::all_name_segments(cs, 1, cs.len() - 1));
                    assert(is_name_segment(comp));
                }
                let piece = text.substring_char(start, j);
                proof {
                    assert(piece@ =~= comp);
                }
                r.push(SymbolNameRef { text: piece });
                start = j + 1;
                proof {
                    gcount = gcount + 1;
                    assert(cs.skip(gcount) =~= cs.skip(gcount - 1).skip(1));
                }
            }
        }
        proof {
            assert(text@.skip(len as int) =~= Seq::<char>::empty());
            crate::grammar::lemma_components_no_sep(Seq::<char>::empty());
            assert(cs.skip(gcount).len() == 1);
            assert(gcount == cs.len() - 1);
        }
        r
    }
}

} // verus!
