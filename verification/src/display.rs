//! Text rendering of expressions: symbols keep their full contexts, strings
//! are quoted and escaped, and applied forms render as `head[a, b]`, so the
//! text can be read back unambiguously by an equivalent reader.
//!
//! Real atoms are rendered by the formatting collaborator outside the core,
//! which is why the functions here ask for trees without them.

use vstd::prelude::*;

use crate::expr::{Expr, ExprKind, ExprView};

verus! {

/// The decimal digits of `n`, most significant first.
pub open spec fn dec_digits(n: nat) -> Seq<char>
    decreases n via dec_digits_decreases
{
    if n < 10 {
        seq![((48 + n) as u8) as char]
    } else {
        dec_digits(n / 10) + seq![((48 + n % 10) as u8) as char]
    }
}

#[via_fn]
proof fn dec_digits_decreases(n: nat) {
    if n >= 10 {
        vstd::arithmetic::div_mod::lemma_div_decreases(n as int, 10);
    }
}

/// The decimal text of `i`, with a leading minus sign when negative.
pub open spec fn int_text(i: int) -> Seq<char> {
    if i >= 0 {
        dec_digits(i as nat)
    } else {
        seq!['-'] + dec_digits((-i) as nat)
    }
}

/// The text of `s` as a quoted string literal, escapes included. The text
/// depends on the characters alone.
pub uninterp spec fn quoted(s: Seq<char>) -> Seq<char>;

/// Relies on the `Debug` formatting of `str`: it renders the text between
/// quotes with special characters escaped, determined by the characters
/// alone, so that the result can be read back as a string literal.
#[verifier::external_body]
fn quote_repr(s: &str) -> (r: String)
    ensures
        r@ == quoted(s@),
{
    format!("{:?}", s)
}

/// Relies on the `Display` formatting of `i64`: the decimal digits of the
/// value, with a leading `-` when it is negative.
#[verifier::external_body]
fn int_repr(i: i64) -> (r: String)
    ensures
        r@ == int_text(i as int),
{
    format!("{}", i)
}

/// Whether the tree holds no real atom.
pub open spec fn real_free(v: ExprView) -> bool
    decreases v, 1int,
{
    match v {
        ExprView::Integer(_) => true,
        ExprView::Real(_) => false,
        ExprView::String(_) => true,
        ExprView::Symbol(_) => true,
        ExprView::Normal { head, contents } => real_free(*head) && items_real_free(contents),
    }
}

/// Whether every tree in the sequence holds no real atom.
pub open spec fn items_real_free(s: Seq<ExprView>) -> bool
    decreases s, 0int,
{
    if s.len() == 0 {
        true
    } else {
        real_free(s[0]) && items_real_free(s.subrange(1, s.len() as int))
    }
}

/// The rendered text of a tree without real atoms.
pub open spec fn display_of(v: ExprView) -> Seq<char>
    decreases v, 1int,
{
    match v {
        ExprView::Integer(i) => int_text(i as int),
        ExprView::Real(_) => Seq::empty(),
        ExprView::String(s) => quoted(s),
        ExprView::Symbol(s) => s,
        ExprView::Normal { head, contents } => display_of(*head) + seq!['['] + display_items(
            contents,
        ) + seq![']'],
    }
}

/// The rendered argument list: the items' texts separated by `, `.
pub open spec fn display_items(s: Seq<ExprView>) -> Seq<char>
    decreases s, 0int,
{
    if s.len() == 0 {
        Seq::empty()
    } else if s.len() == 1 {
        display_of(s[0])
    } else {
        display_of(s[0]) + seq![',', ' '] + display_items(s.subrange(1, s.len() as int))
    }
}

/// How the rendered argument list grows by one item at the end of a prefix.
proof fn lemma_display_items_take_step(s: Seq<ExprView>, i: int)
    requires
        0 <= i < s.len(),
    ensures
        display_items(s.take(i + 1)) == display_items(s.take(i)) + (if i > 0 {
            seq![',', ' ']
        } else {
            Seq::<char>::empty()
        }) + display_of(s[i]),
    decreases i,
{
    if i == 0 {
        assert(s.take(1) =~= seq![s[0]]);
        assert(display_items(s.take(1)) == display_of(s[0]));
        assert(s.take(0) =~= Seq::<ExprView>::empty());
        assert(display_items(s.take(0)) == Seq::<char>::empty());
        assert(display_items(s.take(1)) =~= display_items(s.take(0)) + Seq::<char>::empty()
            + display_of(s[0]));
    } else {
        let t = s.subrange(1, s.len() as int);
        lemma_display_items_take_step(t, i - 1);
        assert(s.take(i + 1).subrange(1, i + 1) =~= t.take(i));
        assert(s.take(i).subrange(1, i) =~= t.take(i - 1));
        assert(s.take(i + 1)[0] == s[0]);
        assert(s.take(i)[0] == s[0]);
        assert(s.take(i + 1).len() == i + 1);
        assert(display_items(s.take(i + 1)) == display_of(s[0]) + seq![',', ' ']
            + display_items(t.take(i)));
        if i == 1 {
            assert(s.take(1) =~= seq![s[0]]);
            assert(display_items(s.take(1)) == display_of(s[0]));
            assert(t.take(1) =~= seq![t[0]]);
            assert(t.take(0) =~= Seq::<ExprView>::empty());
            assert(display_items(t.take(1)) == display_of(t[0]));
            assert(t[0] == s[1]);
            assert(display_items(s.take(2)) =~= display_items(s.take(1)) + seq![',', ' ']
                + display_of(s[1]));
        } else {
            assert(display_items(s.take(i)) == display_of(s[0]) + seq![',', ' ']
                + display_items(t.take(i - 1)));
            assert(t[i - 1] == s[i]);
            assert(display_items(s.take(i + 1)) =~= display_items(s.take(i)) + seq![',', ' ']
                + display_of(s[i]));
        }
    }
}

impl Expr {
    /// Render this expression as text, provided it holds no real atom; real
    /// rendering belongs to the formatting collaborator outside the core.
    pub fn display_string(&self) -> (r: String)
        requires
            real_free(self@),
        ensures
            r@ == display_of(self@),
        decreases self@, 1int,
    {
        match self.kind() {
            ExprKind::Integer(i) => int_repr(*i),
            ExprKind::Real(_) => vstd::pervasive::unreached(),
            ExprKind::String(s) => quote_repr(s.as_str()),
            ExprKind::Symbol(s) => {
                let text = String::from_str(s.as_str());
                text
            },
            ExprKind::Normal(n) => {
                proof {
                    crate::expr::lemma_normal_view(n);
                    assert(n@->head == Box::new(n.head@));
                    assert(decreases_to!(self@ => n.head@));
                }
                let ghost views = crate::expr::exprs_view(n.contents@);
                proof {
                    crate::expr::lemma_exprs_view(n.contents@);
                }
                let mut out = n.head.display_string();
                out.append("[");
                proof {
                    reveal_strlit("[");
                    assert("["@ =~= seq!['[']);
                }
                let ghost base = out@;
                let len = n.contents.len();
                let mut i: usize = 0;
                while i < len
                    invariant
                        i <= len,
                        len == n.contents@.len(),
                        views == crate::expr::exprs_view(n.contents@),
                        views == crate::expr::view_contents(self@),
                        views.len() == len,
                        self@ is Normal,
                        real_free(self@),
                        items_real_free(views),
                        out@ == base + display_items(views.take(i as int)) + (if 0 < i < len {
                            seq![',', ' ']
                        } else {
                            Seq::<char>::empty()
                        }),
                    decreases len - i, self@, 0int,
                {
                    proof {
                        crate::expr::lemma_exprs_view(n.contents@);
                        crate::expr::lemma_normal_view(n);
                        assert(views[i as int] == n.contents@[i as int]@);
                        assert(self@->contents == views);
                        assert(decreases_to!(self@ => views));
                        assert(decreases_to!(views => views[i as int]));
                        assert(decreases_to!(self@ => n.contents@[i as int]@));
                        lemma_items_real_free(views, i as int);
                    }
                    let piece = n.contents[i].display_string();
                    out.append(piece.as_str());
                    if i + 1 != len {
                        out.append(", ");
                        proof {
                            reveal_strlit(", ");
                            assert(", "@ =~= seq![',', ' ']);
                        }
                    }
                    proof {
                        lemma_display_items_take_step(views, i as int);
                        assert(out@ =~= base + display_items(views.take(i as int + 1)) + (if 0 < i
                            + 1 < len {
                            seq![',', ' ']
                        } else {
                            Seq::<char>::empty()
                        }));
                    }
                    i = i + 1;
                }
                out.append("]");
                proof {
                    reveal_strlit("]");
                    assert("]"@ =~= seq![']']);
                    assert(views.take(len as int) =~= views);
                    assert(display_of(self@) == display_of(crate::expr::view_head(self@)) + seq![
                        '[',
                    ] + display_items(views) + seq![']']);
                    assert(out@ =~= display_of(self@));
                }
                out
            },
        }
    }
}

/// Each item of a sequence free of real atoms is itself free of them.
proof fn lemma_items_real_free(s: Seq<ExprView>, i: int)
    requires
        items_real_free(s),
        0 <= i < s.len(),
    ensures
        real_free(s[i]),
    decreases i,
{
    if i > 0 {
        lemma_items_real_free(s.subrange(1, s.len() as int), i - 1);
        assert(s.subrange(1, s.len() as int)[i - 1] == s[i]);
    }
}

} // verus!
