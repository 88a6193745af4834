//! A table of the symbols seen so far, grouped by their bare names, together
//! with the current context and context path.

use vstd::prelude::*;

use crate::grammar::{is_absolute_symbol_seq, is_name_segment, last_sep};
use crate::symbol::{Context, Symbol, SymbolName};

verus! {

/// The string forms of a sequence of symbols, as a set.
pub open spec fn seq_views(s: Seq<Symbol>) -> Set<Seq<char>> {
    s.map_values(|x: Symbol| x@).to_set()
}

/// Membership in `seq_views` is membership of a string form.
pub proof fn lemma_seq_views_contains(s: Seq<Symbol>, t: Seq<char>)
    ensures
        seq_views(s).contains(t) <==> exists|i: int| 0 <= i < s.len() && s[i]@ == t,
{
    let m = s.map_values(|x: Symbol| x@);
    assert(seq_views(s).contains(t) <==> m.contains(t));
    if m.contains(t) {
        let i = choose|i: int| 0 <= i < m.len() && m[i] == t;
        assert(s[i]@ == t);
    }
    if exists|i: int| 0 <= i < s.len() && s[i]@ == t {
        let i = choose|i: int| 0 <= i < s.len() && s[i]@ == t;
        assert(m[i] == t);
    }
}

/// Pushing a symbol inserts its string form.
pub proof fn lemma_seq_views_push(s: Seq<Symbol>, x: Symbol)
    ensures
        seq_views(s.push(x)) == seq_views(s).insert(x@),
{
    assert forall|t: Seq<char>| #[trigger]
        seq_views(s.push(x)).contains(t) implies seq_views(s).insert(x@).contains(t) by {
        lemma_seq_views_contains(s.push(x), t);
        lemma_seq_views_contains(s, t);
        let i = choose|i: int| 0 <= i < s.push(x).len() && s.push(x)[i]@ == t;
        if i < s.len() {
            assert(s[i]@ == t);
        }
    }
    assert forall|t: Seq<char>| #[trigger]
        seq_views(s).insert(x@).contains(t) implies seq_views(s.push(x)).contains(t) by {
        lemma_seq_views_contains(s.push(x), t);
        lemma_seq_views_contains(s, t);
        if t == x@ {
            assert(s.push(x)[s.len() as int]@ == t);
        } else {
            let i = choose|i: int| 0 <= i < s.len() && s[i]@ == t;
            assert(s.push(x)[i]@ == t);
        }
    }
    assert(seq_views(s.push(x)) =~= seq_views(s).insert(x@));
}

/// The context part of a symbol's string form: everything up to and
/// including the last separator.
pub open spec fn context_part(s: Seq<char>) -> Seq<char> {
    s.take(last_sep(s) + 1)
}

/// The name part of a symbol's string form: everything after the last
/// separator.
pub open spec fn name_part(s: Seq<char>) -> Seq<char> {
    s.skip(last_sep(s) + 1)
}

/// A record of the symbols seen so far: the current context, the context
/// search path, the set of live symbols, and every symbol seen, grouped by
/// its bare name.
pub struct SymbolTable {
    context: Context,
    context_path: Vec<Context>,
    symbols: Vec<Symbol>,
    common_symbol_names: Vec<(SymbolName, Vec<Symbol>)>,
}

/// The string forms of a sequence of contexts, in order.
pub open spec fn ctx_views(s: Seq<Context>) -> Seq<Seq<char>> {
    s.map_values(|c: Context| c@)
}

impl SymbolTable {
    /// The string form of the current context.
    pub closed spec fn context_view(&self) -> Seq<char> {
        self.context@
    }

    /// The string forms of the context search path, in order.
    pub closed spec fn path_views(&self) -> Seq<Seq<char>> {
        ctx_views(self.context_path@)
    }

    /// The current context.
    pub fn context(&self) -> (r: &Context)
        ensures
            r@ == self.context_view(),
    {
        &self.context
    }

    /// The context search path.
    pub fn context_path(&self) -> (r: &Vec<Context>)
        ensures
            ctx_views(r@) == self.path_views(),
    {
        &self.context_path
    }

    /// The string forms of the live symbols.
    pub closed spec fn symbols_view(&self) -> Set<Seq<char>> {
        seq_views(self.symbols@)
    }

    /// Whether some symbol with bare name `name` has been recorded.
    pub closed spec fn has_name(&self, name: Seq<char>) -> bool {
        exists|i: int|
            0 <= i < self.common_symbol_names@.len() && self.common_symbol_names@[i].0@ == name
    }

    spec fn name_index(&self, name: Seq<char>) -> int {
        choose|i: int|
            0 <= i < self.common_symbol_names@.len() && self.common_symbol_names@[i].0@ == name
    }

    /// The string forms of the recorded symbols whose bare name is `name`.
    pub closed spec fn bucket_view(&self, name: Seq<char>) -> Set<Seq<char>> {
        if self.has_name(name) {
            seq_views(self.common_symbol_names@[self.name_index(name)].1@)
        } else {
            Set::empty()
        }
    }

    #[verifier::type_invariant]
    spec fn wf(self) -> bool {
        &&& forall|i: int, j: int|
            0 <= i < j < self.common_symbol_names@.len()
                ==> #[trigger] self.common_symbol_names@[i].0@
                != #[trigger] self.common_symbol_names@[j].0@
        &&& forall|i: int, j: int|
            0 <= i < j < self.symbols@.len() ==> #[trigger] self.symbols@[i]@
                != #[trigger] self.symbols@[j]@
        &&& forall|i: int, j: int|
            0 <= i < self.common_symbol_names@.len() && 0 <= j
                < self.common_symbol_names@[i].1@.len() ==> {
                let entry_sym = #[trigger] self.common_symbol_names@[i].1@[j];
                is_absolute_symbol_seq(entry_sym@) && name_part(entry_sym@)
                    == self.common_symbol_names@[i].0@
            }
    }

    /// A fresh table over a context and a context path, with nothing
    /// recorded yet.
    pub fn new(context: Context, context_path: Vec<Context>) -> (r: Self)
        ensures
            r.context_view() == context@,
            r.path_views() == ctx_views(context_path@),
            r.symbols_view() == Set::<Seq<char>>::empty(),
            forall|n: Seq<char>| !#[trigger] r.has_name(n),
    {
        let r = SymbolTable {
            context,
            context_path,
            symbols: Vec::new(),
            common_symbol_names: Vec::new(),
        };
        proof {
            assert forall|t: Seq<char>| !#[trigger] r.symbols_view().contains(t) by {
                lemma_seq_views_contains(r.symbols@, t);
            }
            assert(r.symbols_view() =~= Set::<Seq<char>>::empty());
        }
        r
    }

    /// Record `sym`: add it to the live set and to the group of its bare
    /// name. Returns `true` when the group did not hold it yet.
    pub fn add_symbol(&mut self, sym: Symbol) -> (r: bool)
        ensures
            final(self).context_view() == old(self).context_view(),
            final(self).path_views() == old(self).path_views(),
            final(self).symbols_view() == old(self).symbols_view().insert(sym@),
            final(self).has_name(name_part(sym@)),
            forall|n: Seq<char>|
                n != name_part(sym@) ==> #[trigger] final(self).has_name(n) == old(self).has_name(
                    n,
                ),
            forall|n: Seq<char>|
                n != name_part(sym@) ==> #[trigger] final(self).bucket_view(n) == old(
                    self,
                ).bucket_view(n),
            final(self).bucket_view(name_part(sym@)) == old(self).bucket_view(
                name_part(sym@),
            ).insert(sym@),
            r == !old(self).bucket_view(name_part(sym@)).contains(sym@),
    {
        proof {
            use_type_invariant(&*self);
        }
        let ghost old_self = *self;
        let ghost gsym = sym;
        // add to the live set when absent
        let mut present = false;
        let mut i: usize = 0;
        while i < self.symbols.len()
            invariant
                *self == old_self,
                sym == gsym,
                i <= self.symbols@.len(),
                present == exists|k: int| 0 <= k < i && self.symbols@[k]@ == sym@,
            decreases self.symbols@.len() - i,
        {
            if &self.symbols[i] == &sym {
                present = true;
            }
            i = i + 1;
        }
        if !present {
            let cloned = sym.clone();
            let ghost gclone: Symbol = cloned;
            let mut syms: Vec<Symbol> = Vec::new();
            core::mem::swap(&mut syms, &mut self.symbols);
            syms.push(cloned);
            core::mem::swap(&mut syms, &mut self.symbols);
            proof {
                lemma_seq_views_push(old_self.symbols@, gclone);
                assert(seq_views(old_self.symbols@).insert(gclone@) =~= seq_views(
                    old_self.symbols@,
                ).insert(sym@));
            }
        } else {
            proof {
                lemma_seq_views_contains(self.symbols@, sym@);
                assert(self.symbols_view().contains(sym@));
                assert(self.symbols_view() =~= self.symbols_view().insert(sym@));
            }
        }
        // add to the group of its bare name
        let name = sym.symbol_name().to_symbol_name();
        let r = self.add_to_bucket(name, sym);
        r
    }

    /// Add `sym` to the group keyed by `name`, creating the group if it is
    /// new. Returns `true` when the group did not hold it yet.
    fn add_to_bucket(&mut self, name: SymbolName, sym: Symbol) -> (r: bool)
        requires
            is_absolute_symbol_seq(sym@),
            name@ == name_part(sym@),
        ensures
            final(self).context_view() == old(self).context_view(),
            final(self).path_views() == old(self).path_views(),
            final(self).symbols_view() == old(self).symbols_view(),
            final(self).has_name(name@),
            forall|n: Seq<char>|
                n != name@ ==> #[trigger] final(self).has_name(n) == old(self).has_name(n),
            forall|n: Seq<char>|
                n != name@ ==> #[trigger] final(self).bucket_view(n) == old(self).bucket_view(n),
            final(self).bucket_view(name@) == old(self).bucket_view(name@).insert(sym@),
            r == !old(self).bucket_view(name@).contains(sym@),
    {
        proof {
            use_type_invariant(&*self);
        }
        let ghost old_entries = self.common_symbol_names@;
        let ghost gsym = sym;
        let ghost gname = name;
        let mut i: usize = 0;
        let n = self.common_symbol_names.len();
        while i < n
            invariant
                *self == *old(self),
                sym == gsym,
                name == gname,
                is_absolute_symbol_seq(sym@),
                name@ == name_part(sym@),
                i <= n,
                n == self.common_symbol_names@.len(),
                forall|k: int| 0 <= k < i ==> #[trigger] self.common_symbol_names@[k].0@ != name@,
            decreases n - i,
        {
            if &self.common_symbol_names[i].0 == &name {
                proof {
                    use_type_invariant(&*self);
                }
                return self.push_into_bucket(i, sym);
            }
            i = i + 1;
        }
        // no group yet: create one
        let ghost pre = *self;
        let mut bucket: Vec<Symbol> = Vec::new();
        bucket.push(sym);
        let entry = (name, bucket);
        let mut entries: Vec<(SymbolName, Vec<Symbol>)> = Vec::new();
        core::mem::swap(&mut entries, &mut self.common_symbol_names);
        entries.push(entry);
        proof {
            assert forall|a: int, b: int|
                0 <= a < b < entries@.len() implies #[trigger] entries@[a].0@
                != #[trigger] entries@[b].0@ by {
                if b < old_entries.len() {
                    assert(entries@[a] == old_entries[a]);
                    assert(entries@[b] == old_entries[b]);
                } else {
                    assert(entries@[a] == old_entries[a]);
                    assert(old_entries[a].0@ != name@);
                    assert(entries@[b].0@ == name@);
                }
            }
        }
        core::mem::swap(&mut entries, &mut self.common_symbol_names);
        proof {
            let m = self.common_symbol_names@.len() as int - 1;
            assert(self.common_symbol_names@[m].0@ == name@);
            assert(self.has_name(name@));
            assert forall|k: int|
                0 <= k < self.common_symbol_names@.len() && #[trigger] self.common_symbol_names@[
                    k
                ].0@ == name@ implies k == m by {
                if k < m {
                    assert(old_entries[k].0@ != name@);
                }
            }
            assert(self.name_index(name@) == m);
            lemma_seq_views_push(Seq::<Symbol>::empty(), sym);
            assert(Seq::<Symbol>::empty().push(sym) =~= self.common_symbol_names@[m].1@);
            assert forall|t: Seq<char>| !#[trigger] seq_views(Seq::<Symbol>::empty()).contains(
                t,
            ) by {
                lemma_seq_views_contains(Seq::<Symbol>::empty(), t);
            }
            assert(seq_views(Seq::<Symbol>::empty()) =~= Set::<Seq<char>>::empty());
            assert(!pre.has_name(name@));
            assert(self.bucket_view(name@) =~= pre.bucket_view(name@).insert(sym@));
            assert forall|nm: Seq<char>| nm != name@ implies #[trigger] self.has_name(nm)
                == pre.has_name(nm) by {
                if pre.has_name(nm) {
                    let k = pre.name_index(nm);
                    assert(0 <= k < old_entries.len() && old_entries[k].0@ == nm);
                    assert(self.common_symbol_names@[k].0@ == nm);
                } else if self.has_name(nm) {
                    let k = self.name_index(nm);
                    assert(0 <= k < self.common_symbol_names@.len()
                        && self.common_symbol_names@[k].0@ == nm);
                    assert(k == m) by {
                        if k < m {
                            assert(self.common_symbol_names@[k] == old_entries[k]);
                            assert(pre.has_name(nm));
                        }
                    }
                }
            }
            assert forall|nm: Seq<char>| nm != name@ implies #[trigger] self.bucket_view(nm)
                == pre.bucket_view(nm) by {
                if pre.has_name(nm) {
                    let k = pre.name_index(nm);
                    assert(0 <= k < old_entries.len() && old_entries[k].0@ == nm);
                    assert(self.common_symbol_names@[k].0@ == nm);
                    assert(self.has_name(nm));
                    let k2 = self.name_index(nm);
                    assert(0 <= k2 < self.common_symbol_names@.len()
                        && self.common_symbol_names@[k2].0@ == nm);
                    assert(k2 != m);
                    assert(self.common_symbol_names@[k2] == old_entries[k2]);
                    assert(k2 == k) by {
                        if k2 != k {
                            assert(old_entries[k].0@ != old_entries[k2].0@);
                        }
                    }
                } else if self.has_name(nm) {
                    let k = self.name_index(nm);
                    assert(0 <= k < self.common_symbol_names@.len()
                        && self.common_symbol_names@[k].0@ == nm);
                    assert(k == m) by {
                        if k < m {
                            assert(self.common_symbol_names@[k] == old_entries[k]);
                            assert(pre.has_name(nm));
                        }
                    }
                }
            }
        }
        true
    }

    /// Add `sym` to the existing group at `at`. Returns `true` when the
    /// group did not hold it yet.
    fn push_into_bucket(&mut self, at: usize, sym: Symbol) -> (r: bool)
        requires
            old(self).wf(),
            at < old(self).common_symbol_names@.len(),
            old(self).common_symbol_names@[at as int].0@ == name_part(sym@),
        ensures
            final(self).context_view() == old(self).context_view(),
            final(self).path_views() == old(self).path_views(),
            final(self).symbols_view() == old(self).symbols_view(),
            final(self).has_name(name_part(sym@)),
            forall|n: Seq<char>|
                n != name_part(sym@) ==> #[trigger] final(self).has_name(n) == old(self).has_name(
                    n,
                ),
            forall|n: Seq<char>|
                n != name_part(sym@) ==> #[trigger] final(self).bucket_view(n) == old(
                    self,
                ).bucket_view(n),
            final(self).bucket_view(name_part(sym@)) == old(self).bucket_view(
                name_part(sym@),
            ).insert(sym@),
            r == !old(self).bucket_view(name_part(sym@)).contains(sym@),
    {
        let ghost pre = *self;
        let ghost gsym2 = sym;
        let ghost name = name_part(sym@);
        proof {
            assert(pre == *old(self));
            assert(name == name_part(gsym2@));
            assert(pre.has_name(name));
            assert forall|k: int|
                0 <= k < pre.common_symbol_names@.len() && #[trigger] pre.common_symbol_names@[
                    k
                ].0@ == name implies k == at by {
                if k != at {
                    if k < at {
                        assert(pre.common_symbol_names@[k].0@ != pre.common_symbol_names@[
                            at as int
                        ].0@);
                    } else {
                        assert(pre.common_symbol_names@[at as int].0@ != pre.common_symbol_names@[
                            k
                        ].0@);
                    }
                }
            }
            assert(pre.name_index(name) == at);
        }
        let bucket_len = self.common_symbol_names[at].1.len();
        let mut present = false;
        let mut j: usize = 0;
        while j < bucket_len
            invariant
                *self == pre,
                sym == gsym2,
                at < self.common_symbol_names@.len(),
                bucket_len == self.common_symbol_names@[at as int].1@.len(),
                j <= bucket_len,
                present == exists|k: int|
                    0 <= k < j && self.common_symbol_names@[at as int].1@[k]@ == sym@,
            decreases bucket_len - j,
        {
            if &self.common_symbol_names[at].1[j] == &sym {
                present = true;
            }
            j = j + 1;
        }
        proof {
            lemma_seq_views_contains(pre.common_symbol_names@[at as int].1@, sym@);
            assert(present == pre.bucket_view(name).contains(sym@));
        }
        if present {
            proof {
                assert(self.bucket_view(name) =~= self.bucket_view(name).insert(sym@));
            }
            return false;
        }
        proof {
            use_type_invariant(&sym);
        }
        let mut entries: Vec<(SymbolName, Vec<Symbol>)> = Vec::new();
        core::mem::swap(&mut entries, &mut self.common_symbol_names);
        let removed = entries.remove(at);
        let (name_at, mut bucket) = removed;
        let ghost old_bucket = bucket@;
        bucket.push(sym);
        let entry = (name_at, bucket);
        entries.insert(at, entry);
        proof {
            assert forall|k: int| 0 <= k < entries@.len() implies #[trigger] entries@[k].0
                == pre.common_symbol_names@[k].0 by {
            }
            assert forall|a: int, b: int|
                0 <= a < b < entries@.len() implies #[trigger] entries@[a].0@
                != #[trigger] entries@[b].0@ by {
                assert(pre.common_symbol_names@[a].0@ != pre.common_symbol_names@[b].0@);
            }
            assert forall|a: int, b: int|
                0 <= a < entries@.len() && 0 <= b < entries@[a].1@.len() implies {
                let entry_sym = #[trigger] entries@[a].1@[b];
                is_absolute_symbol_seq(entry_sym@) && name_part(entry_sym@) == entries@[a].0@
            } by {
                if a != at {
                    assert(entries@[a] == pre.common_symbol_names@[a]);
                    assert(pre.common_symbol_names@[a].1@[b] == entries@[a].1@[b]);
                } else {
                    if b < old_bucket.len() {
                        assert(entries@[a].1@[b] == pre.common_symbol_names@[at as int].1@[b]);
                    } else {
                        assert(entries@[a].1@[b] == gsym2);
                    }
                }
            }
        }
        core::mem::swap(&mut entries, &mut self.common_symbol_names);
        proof {
            assert(self.common_symbol_names@ =~= pre.common_symbol_names@.update(
                at as int,
                (pre.common_symbol_names@[at as int].0, self.common_symbol_names@[at as int].1),
            ));
            assert(self.common_symbol_names@[at as int].0@ == name);
            assert forall|k: int|
                0 <= k < self.common_symbol_names@.len() && #[trigger] self.common_symbol_names@[
                    k
                ].0@ == name implies k == at by {
                assert(self.common_symbol_names@[k].0@ == pre.common_symbol_names@[k].0@);
            }
            assert(self.has_name(name));
            assert(self.name_index(name) == at);
            lemma_seq_views_push(old_bucket, sym);
            assert(self.bucket_view(name) == pre.bucket_view(name).insert(sym@));
            assert forall|nm: Seq<char>| nm != name implies #[trigger] self.has_name(nm)
                == pre.has_name(nm) by {
                lemma_same_keys_same_names(pre, *self, nm);
            }
            assert forall|nm: Seq<char>| nm != name implies #[trigger] self.bucket_view(nm)
                == pre.bucket_view(nm) by {
                lemma_same_keys_same_names(pre, *self, nm);
                if pre.has_name(nm) {
                    let k = pre.name_index(nm);
                    assert(self.common_symbol_names@[k].0@ == nm);
                    assert(self.has_name(nm));
                    let k2 = self.name_index(nm);
                    assert(k2 != at);
                    assert(pre.common_symbol_names@[k2].0@ == nm);
                    assert(k2 == k) by {
                        if k2 != k {
                            assert(pre.common_symbol_names@[k].0@ != pre.common_symbol_names@[
                                k2
                            ].0@);
                        }
                    }
                    assert(self.common_symbol_names@[k2].1 == pre.common_symbol_names@[k].1);
                }
            }
        }
        true
    }
}


/// Tables with elementwise equal keys record the same names.
proof fn lemma_same_keys_same_names(a: SymbolTable, b: SymbolTable, nm: Seq<char>)
    requires
        a.common_symbol_names@.len() == b.common_symbol_names@.len(),
        forall|k: int|
            0 <= k < a.common_symbol_names@.len() ==> #[trigger] a.common_symbol_names@[k].0@
                == b.common_symbol_names@[k].0@,
    ensures
        a.has_name(nm) == b.has_name(nm),
{
    if a.has_name(nm) {
        let k = a.name_index(nm);
        assert(b.common_symbol_names@[k].0@ == nm);
    }
    if b.has_name(nm) {
        let k = b.name_index(nm);
        assert(a.common_symbol_names@[k].0@ == nm);
    }
}


/// Removing one occurrence of a string form that occurs nowhere else
/// removes it from the set of forms.
proof fn lemma_seq_views_remove(s: Seq<Symbol>, at: int)
    requires
        0 <= at < s.len(),
        forall|i: int, j: int| 0 <= i < j < s.len() ==> #[trigger] s[i]@ != #[trigger] s[j]@,
    ensures
        seq_views(s.remove(at)) == seq_views(s).remove(s[at]@),
{
    let t = s.remove(at);
    assert forall|u: Seq<char>| #[trigger] seq_views(t).contains(u) implies seq_views(s).remove(
        s[at]@,
    ).contains(u) by {
        lemma_seq_views_contains(t, u);
        lemma_seq_views_contains(s, u);
        let i = choose|i: int| 0 <= i < t.len() && t[i]@ == u;
        if i < at {
            assert(s[i]@ == u);
            assert(u != s[at]@) by {
                if i < at {
                    assert(s[i]@ != s[at]@);
                }
            }
        } else {
            assert(s[i + 1]@ == u);
            assert(s[at]@ != s[i + 1]@);
        }
    }
    assert forall|u: Seq<char>| #[trigger]
        seq_views(s).remove(s[at]@).contains(u) implies seq_views(t).contains(u) by {
        lemma_seq_views_contains(t, u);
        lemma_seq_views_contains(s, u);
        let i = choose|i: int| 0 <= i < s.len() && s[i]@ == u;
        if i < at {
            assert(t[i]@ == u);
        } else {
            assert(i != at);
            assert(t[i - 1]@ == u);
        }
    }
    assert(seq_views(t) =~= seq_views(s).remove(s[at]@));
}

impl SymbolTable {
    /// Remove `sym` from the live set; the record of names seen is kept.
    pub fn remove_symbol(&mut self, sym: &Symbol)
        ensures
            final(self).context_view() == old(self).context_view(),
            final(self).path_views() == old(self).path_views(),
            final(self).symbols_view() == old(self).symbols_view().remove(sym@),
            forall|n: Seq<char>| #[trigger] final(self).has_name(n) == old(self).has_name(n),
            forall|n: Seq<char>| #[trigger] final(self).bucket_view(n) == old(self).bucket_view(n),
    {
        proof {
            use_type_invariant(&*self);
        }
        let ghost old_self = *self;
        let mut i: usize = 0;
        let n = self.symbols.len();
        while i < n
            invariant
                *self == old_self,
                old_self == *old(self),
                i <= n,
                n == self.symbols@.len(),
                forall|k: int| 0 <= k < i ==> #[trigger] self.symbols@[k]@ != sym@,
            decreases n - i,
        {
            if &self.symbols[i] == sym {
                proof {
                    use_type_invariant(&*self);
                }
                let mut syms: Vec<Symbol> = Vec::new();
                core::mem::swap(&mut syms, &mut self.symbols);
                let removed = syms.remove(i);
                proof {
                    assert forall|a: int, b: int|
                        0 <= a < b < syms@.len() implies #[trigger] syms@[a]@
                        != #[trigger] syms@[b]@ by {
                        let sa = if a < i { a } else { a + 1 };
                        let sb = if b < i { b } else { b + 1 };
                        assert(syms@[a] == old_self.symbols@[sa]);
                        assert(syms@[b] == old_self.symbols@[sb]);
                        assert(old_self.symbols@[sa]@ != old_self.symbols@[sb]@);
                    }
                }
                core::mem::swap(&mut syms, &mut self.symbols);
                proof {
                    lemma_seq_views_remove(old_self.symbols@, i as int);
                    assert(seq_views(old_self.symbols@).remove(old_self.symbols@[i as int]@)
                        =~= seq_views(old_self.symbols@).remove(sym@));
                }
                return ;
            }
            i = i + 1;
        }
        proof {
            lemma_seq_views_contains(self.symbols@, sym@);
            assert(!self.symbols_view().contains(sym@));
            assert(self.symbols_view() =~= self.symbols_view().remove(sym@));
        }
    }

    /// Whether `sym` lives in the current context or in a context on the
    /// search path.
    pub fn is_visible(&self, sym: &Symbol) -> (r: bool)
        ensures
            r == (context_part(sym@) == self.context_view() || exists|i: int|
                0 <= i < self.path_views().len() && self.path_views()[i] == context_part(sym@)),
    {
        let ctx = sym.context().to_context();
        if &ctx == &self.context {
            return true;
        }
        let mut i: usize = 0;
        let n = self.context_path.len();
        while i < n
            invariant
                n == self.context_path@.len(),
                i <= n,
                ctx@ == context_part(sym@),
                ctx@ != self.context@,
                forall|k: int| 0 <= k < i ==> #[trigger] self.context_path@[k]@ != ctx@,
            decreases n - i,
        {
            if &self.context_path[i] == &ctx {
                proof {
                    assert(self.path_views()[i as int] == ctx@);
                }
                return true;
            }
            i = i + 1;
        }
        proof {
            assert forall|k: int| 0 <= k < self.path_views().len() implies #[trigger] self.path_views()[k]
                != context_part(sym@) by {
                assert(self.path_views()[k] == self.context_path@[k]@);
            }
        }
        false
    }
}


/// `post` is `pre` with the symbol whose string form is `t` recorded.
pub open spec fn records(pre: SymbolTable, post: SymbolTable, t: Seq<char>) -> bool {
    &&& post.context_view() == pre.context_view()
    &&& post.path_views() == pre.path_views()
    &&& post.symbols_view() == pre.symbols_view().insert(t)
    &&& post.has_name(name_part(t))
    &&& post.bucket_view(name_part(t)) == pre.bucket_view(name_part(t)).insert(t)
    &&& forall|n: Seq<char>| n != name_part(t) ==> #[trigger] post.has_name(n) == pre.has_name(n)
    &&& forall|n: Seq<char>|
        n != name_part(t) ==> #[trigger] post.bucket_view(n) == pre.bucket_view(n)
}

impl SymbolTable {
    /// Whether some recorded symbol with bare name `name` lives in a context
    /// on the search path.
    pub open spec fn lookup_hit(self, name: Seq<char>) -> bool {
        exists|i: int, t: Seq<char>|
            0 <= i < self.path_views().len() && #[trigger] self.bucket_view(name).contains(t)
                && context_part(t) == #[trigger] self.path_views()[i]
    }

    /// The position of the group keyed `name`, if there is one.
    fn find_bucket(&self, name: &SymbolName) -> (r: Option<usize>)
        ensures
            r matches Some(at) ==> at < self.common_symbol_names@.len()
                && self.common_symbol_names@[at as int].0@ == name@,
            r is None ==> !self.has_name(name@),
    {
        let mut i: usize = 0;
        let n = self.common_symbol_names.len();
        while i < n
            invariant
                i <= n,
                n == self.common_symbol_names@.len(),
                forall|k: int| 0 <= k < i ==> #[trigger] self.common_symbol_names@[k].0@ != name@,
            decreases n - i,
        {
            if &self.common_symbol_names[i].0 == name {
                return Some(i);
            }
            i = i + 1;
        }
        None
    }

    /// The symbol `context` + `name`, where the name is a bare segment.
    fn qualify(&self, symbol_name: &SymbolName) -> (r: Symbol)
        ensures
            r@ == self.context_view() + symbol_name@,
            is_absolute_symbol_seq(r@),
            name_part(r@) == symbol_name@,
    {
        proof {
            use_type_invariant(&self.context);
            use_type_invariant(symbol_name);
            crate::grammar::lemma_segment_has_no_separator(symbol_name@);
            crate::grammar::lemma_components_no_sep(symbol_name@);
            crate::grammar::lemma_context_prepend(self.context@, symbol_name@);
            crate::grammar::lemma_symbol_decompose(self.context@ + symbol_name@);
            assert(crate::grammar::components_of(self.context@ + symbol_name@).last()
                == symbol_name@);
        }
        let mut text = String::from_str(self.context.as_str());
        text.append(symbol_name.as_str());
        let r = Symbol::new(text.as_str());
        r
    }

    /// Resolve a bare name: take a recorded symbol with that name from the
    /// first context that yields one on the search path, or else qualify the
    /// name with the current context, recording it if the name was seen
    /// before.
    fn parse_symbol_name(&mut self, symbol_name: &SymbolName) -> (r: Symbol)
        ensures
            final(self).context_view() == old(self).context_view(),
            final(self).path_views() == old(self).path_views(),
            is_absolute_symbol_seq(r@),
            name_part(r@) == symbol_name@,
            !old(self).has_name(symbol_name@) ==> (r@ == old(self).context_view() + symbol_name@
                && *final(self) == *old(self)),
            old(self).has_name(symbol_name@) && old(self).lookup_hit(symbol_name@) ==> (old(
                self,
            ).bucket_view(symbol_name@).contains(r@) && (exists|i: int|
                0 <= i < old(self).path_views().len() && old(self).path_views()[i] == context_part(
                    r@,
                ) && (forall|k: int, t: Seq<char>|
                    0 <= k < i && #[trigger] old(self).bucket_view(symbol_name@).contains(t)
                        ==> context_part(t) != #[trigger] old(self).path_views()[k]))
                && *final(self) == *old(self)),
            old(self).has_name(symbol_name@) && !old(self).lookup_hit(symbol_name@) ==> (r@ == old(
                self,
            ).context_view() + symbol_name@ && records(*old(self), *final(self), r@)),
    {
        proof {
            use_type_invariant(&*self);
            use_type_invariant(symbol_name);
        }
        let at = match self.find_bucket(symbol_name) {
            None => {
                return self.qualify(symbol_name);
            },
            Some(at) => at,
        };
        let np = self.context_path.len();
        let mut i: usize = 0;
        while i < np
            invariant
                *self == *old(self),
                self.wf(),
                np == self.context_path@.len(),
                i <= np,
                at < self.common_symbol_names@.len(),
                self.common_symbol_names@[at as int].0@ == symbol_name@,
                forall|k: int, jj: int|
                    0 <= k < i && 0 <= jj < self.common_symbol_names@[at as int].1@.len()
                        ==> context_part(#[trigger] self.common_symbol_names@[at as int].1@[jj]@)
                        != #[trigger] self.path_views()[k],
            decreases np - i,
        {
            let m = self.common_symbol_names[at].1.len();
            let mut j: usize = 0;
            while j < m
                invariant
                    *self == *old(self),
                    self.wf(),
                    np == self.context_path@.len(),
                    i < np,
                    m == self.common_symbol_names@[at as int].1@.len(),
                    j <= m,
                    at < self.common_symbol_names@.len(),
                    self.common_symbol_names@[at as int].0@ == symbol_name@,
                    forall|jj: int|
                        0 <= jj < j ==> context_part(
                            #[trigger] self.common_symbol_names@[at as int].1@[jj]@,
                        ) != self.path_views()[i as int],
                    forall|k: int, jj: int|
                        0 <= k < i && 0 <= jj < self.common_symbol_names@[at as int].1@.len()
                            ==> context_part(
                            #[trigger] self.common_symbol_names@[at as int].1@[jj]@,
                        ) != #[trigger] self.path_views()[k],
                decreases m - j,
            {
                let cand = &self.common_symbol_names[at].1[j];
                let cand_ctx = cand.context().to_context();
                if &cand_ctx == &self.context_path[i] {
                    let found = cand.clone();
                    proof {
                        lemma_seq_views_contains(
                            self.common_symbol_names@[at as int].1@,
                            found@,
                        );
                        assert(self.has_name(symbol_name@));
                        assert(self.name_index(symbol_name@) == at) by {
                            let k = self.name_index(symbol_name@);
                            if k != at {
                                if k < at {
                                    assert(self.common_symbol_names@[k].0@
                                        != self.common_symbol_names@[at as int].0@);
                                } else {
                                    assert(self.common_symbol_names@[at as int].0@
                                        != self.common_symbol_names@[k].0@);
                                }
                            }
                        }
                        assert(self.bucket_view(symbol_name@).contains(found@));
                        assert(self.path_views()[i as int] == self.context_path@[i as int]@);
                        assert(context_part(found@) == self.path_views()[i as int]);
                        assert(self.lookup_hit(symbol_name@));
                        assert(name_part(found@) == symbol_name@);
                        assert forall|k: int, t: Seq<char>|
                            0 <= k < i && #[trigger] self.bucket_view(symbol_name@).contains(
                                t,
                            ) implies context_part(t) != #[trigger] self.path_views()[k] by {
                            lemma_seq_views_contains(
                                self.common_symbol_names@[at as int].1@,
                                t,
                            );
                            let jj = choose|jj: int|
                                0 <= jj < self.common_symbol_names@[at as int].1@.len()
                                    && self.common_symbol_names@[at as int].1@[jj]@ == t;
                            assert(context_part(self.common_symbol_names@[at as int].1@[jj]@)
                                != self.path_views()[k]);
                        }
                    }
                    return found;
                }
                j = j + 1;
            }
            i = i + 1;
        }
        // nothing on the path: qualify with the current context and record it
        proof {
            assert(self.has_name(symbol_name@));
            assert(self.name_index(symbol_name@) == at) by {
                let k = self.name_index(symbol_name@);
                if k != at {
                    if k < at {
                        assert(self.common_symbol_names@[k].0@ != self.common_symbol_names@[
                            at as int
                        ].0@);
                    } else {
                        assert(self.common_symbol_names@[at as int].0@ != self.common_symbol_names@[
                            k
                        ].0@);
                    }
                }
            }
            assert(!self.lookup_hit(symbol_name@)) by {
                if self.lookup_hit(symbol_name@) {
                    let (wi, wt): (int, Seq<char>) = choose|wi: int, wt: Seq<char>|
                        0 <= wi < self.path_views().len() && #[trigger] self.bucket_view(
                            symbol_name@,
                        ).contains(wt) && context_part(wt) == #[trigger] self.path_views()[wi];
                    lemma_seq_views_contains(self.common_symbol_names@[at as int].1@, wt);
                }
            }
        }
        let fresh = self.qualify(symbol_name);
        let cloned = fresh.clone();
        let ghost gfresh: Symbol = fresh;
        let _recorded = self.add_symbol(cloned);
        proof {
            assert(records(*old(self), *self, gfresh@));
        }
        fresh
    }
}


impl SymbolTable {
    /// Read a symbol as written in source text: a bare name is resolved
    /// against the table, a relative symbol is qualified with the current
    /// context, and an absolute symbol is taken as it stands; the latter two
    /// are recorded. Text that fits none of those shapes is rejected.
    pub fn parse_from_source(&mut self, symbol: &str) -> (r: Option<Symbol>)
        ensures
            final(self).context_view() == old(self).context_view(),
            final(self).path_views() == old(self).path_views(),
            r is Some <==> (is_name_segment(symbol@) || crate::grammar::is_relative_symbol_seq(
                symbol@,
            ) || is_absolute_symbol_seq(symbol@)),
            r is None ==> *final(self) == *old(self),
            crate::grammar::is_relative_symbol_seq(symbol@) ==> (r matches Some(sym) && sym@
                == old(self).context_view() + symbol@.skip(1) && records(
                *old(self),
                *final(self),
                sym@,
            )),
            is_absolute_symbol_seq(symbol@) ==> (r matches Some(sym) && sym@ == symbol@
                && records(*old(self), *final(self), sym@)),
            is_name_segment(symbol@) ==> (r matches Some(sym) && is_absolute_symbol_seq(sym@)
                && name_part(sym@) == symbol@ && (!old(self).has_name(symbol@) ==> sym@ == old(
                self,
            ).context_view() + symbol@ && *final(self) == *old(self)) && (old(self).has_name(
                symbol@,
            ) && old(self).lookup_hit(symbol@) ==> old(self).bucket_view(symbol@).contains(sym@)
                && *final(self) == *old(self)) && (old(self).has_name(symbol@) && !old(
                self,
            ).lookup_hit(symbol@) ==> sym@ == old(self).context_view() + symbol@ && records(
                *old(self),
                *final(self),
                sym@,
            ))),
    {
        proof {
            crate::grammar::lemma_classification(symbol@);
            crate::grammar::lemma_symbol_name_iff_segment(symbol@);
        }
        match SymbolName::try_new(symbol) {
            Some(name) => {
                let resolved = self.parse_symbol_name(&name);
                return Some(resolved);
            },
            None => {
            },
        }
        match crate::grammar::parse_symbol_like(symbol) {
            Some(crate::grammar::SymbolLike::RelativeSymbol) => {
                proof {
                    use_type_invariant(&self.context);
                }
                let ghost cs = crate::grammar::components_of(symbol@);
                proof {
                    crate::grammar::lemma_first_sep_bounds(symbol@);
                    if crate::grammar::first_sep(symbol@) == symbol@.len() {
                        assert(cs.len() == 1);
                    }
                    assert(cs[0] == symbol@.take(crate::grammar::first_sep(symbol@)));
                    assert(crate::grammar::first_sep(symbol@) == 0);
                    crate::grammar::lemma_components_unfold(symbol@, 0, 0);
                    assert(symbol@.skip(0) =~= symbol@);
                    assert(crate::grammar::components_of(symbol@.skip(1)) == cs.skip(1));
                    assert forall|k: int|
                        0 <= k < cs.skip(1).len() implies crate::grammar::is_name_segment(
                        #[trigger] cs.skip(1)[k],
                    ) by {
                        assert(cs.skip(1)[k] == cs[k + 1]);
                        assert(crate::grammar::all_name_segments(cs, 1, cs.len() as int));
                    }
                    crate::grammar::lemma_context_prepend(self.context@, symbol@.skip(1));
                }
                let len = symbol.unicode_len();
                let rest = symbol.substring_char(1, len);
                proof {
                    assert(rest@ =~= symbol@.skip(1));
                }
                let mut text = String::from_str(self.context.as_str());
                text.append(rest);
                let sym = Symbol::new(text.as_str());
                let cloned = sym.clone();
                let ghost gsym: Symbol = sym;
                let _recorded = self.add_symbol(cloned);
                proof {
                    assert(records(*old(self), *self, gsym@));
                }
                Some(sym)
            },
            Some(crate::grammar::SymbolLike::AbsoluteSymbol) => {
                let sym = Symbol::new(symbol);
                let cloned = sym.clone();
                let ghost gsym: Symbol = sym;
                let _recorded = self.add_symbol(cloned);
                proof {
                    assert(records(*old(self), *self, gsym@));
                }
                Some(sym)
            },
            _ => None,
        }
    }
}

} // verus!
