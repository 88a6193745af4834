//! The binary wire format: a tagged, length-prefixed encoding of the
//! expression tree, and a zlib-compressed variant.
//!
//! An encoded file starts with the two header bytes `8:` (or `8C:` for the
//! compressed form). Each node is a one-byte tag followed by its payload:
//! `L` with eight little-endian bytes for an integer, `r` with eight
//! little-endian bytes for a real, `S` or `s` with a varint byte length and
//! the UTF-8 bytes for a string or symbol, and `f` with a varint argument
//! count, then the head's encoding, then each argument's encoding in order.

use vstd::prelude::*;

use std::io::Write;

use vstd::bytes::spec_u64_to_le_bytes;
use vstd::bytes::u64_to_le_bytes;
use vstd::utf8::encode_utf8;

use crate::expr::{Expr, ExprKind, ExprView, Normal};

verus! {

/// Variable-length unsigned integer encoding: seven data bits per byte, low
/// bits first, with the high bit set on every byte but the last.
pub open spec fn varint(n: nat) -> Seq<u8>
    decreases n via varint_decreases
{
    if n < 128 {
        seq![n as u8]
    } else {
        seq![(n % 128 + 128) as u8] + varint(n / 128)
    }
}

#[via_fn]
proof fn varint_decreases(n: nat) {
    if n >= 128 {
        vstd::arithmetic::div_mod::lemma_div_decreases(n as int, 128);
    }
}

/// The encoding of one node.
pub open spec fn wxf_expr(v: ExprView) -> Seq<u8>
    decreases v, 1int,
{
    match v {
        ExprView::Integer(i) => seq![76u8] + spec_u64_to_le_bytes(i as u64),
        ExprView::Real(bits) => seq![114u8] + spec_u64_to_le_bytes(bits),
        ExprView::String(s) => seq![83u8] + varint(encode_utf8(s).len()) + encode_utf8(s),
        ExprView::Symbol(s) => seq![115u8] + varint(encode_utf8(s).len()) + encode_utf8(s),
        ExprView::Normal { head, contents } => seq![102u8] + varint(contents.len()) + wxf_expr(
            *head,
        ) + wxf_exprs(contents),
    }
}

/// The encodings of a sequence of nodes, concatenated in order.
pub open spec fn wxf_exprs(s: Seq<ExprView>) -> Seq<u8>
    decreases s, 0int,
{
    if s.len() == 0 {
        Seq::empty()
    } else {
        wxf_expr(s[0]) + wxf_exprs(s.subrange(1, s.len() as int))
    }
}

/// How `wxf_exprs` grows by one element at the end of a prefix.
pub proof fn lemma_wxf_exprs_take_step(s: Seq<ExprView>, i: int)
    requires
        0 <= i < s.len(),
    ensures
        wxf_exprs(s.take(i + 1)) == wxf_exprs(s.take(i)) + wxf_expr(s[i]),
    decreases i,
{
    if i == 0 {
        assert(s.take(1) =~= seq![s[0]]);
        assert(s.take(1).subrange(1, 1) =~= Seq::<ExprView>::empty());
        assert(wxf_exprs(s.take(1)) == wxf_expr(s[0]) + wxf_exprs(Seq::<ExprView>::empty()));
        assert(s.take(0) =~= Seq::<ExprView>::empty());
        assert(wxf_exprs(s.take(0)) == Seq::<u8>::empty());
        assert(wxf_exprs(s.take(1)) =~= wxf_exprs(s.take(0)) + wxf_expr(s[0]));
    } else {
        let t = s.subrange(1, s.len() as int);
        lemma_wxf_exprs_take_step(t, i - 1);
        assert(s.take(i + 1).subrange(1, i + 1) =~= t.take(i));
        assert(s.take(i).subrange(1, i) =~= t.take(i - 1));
        assert(s.take(i + 1)[0] == s[0]);
        assert(s.take(i)[0] == s[0]);
        assert(wxf_exprs(s.take(i + 1)) == wxf_expr(s[0]) + wxf_exprs(t.take(i)));
        assert(wxf_exprs(s.take(i)) == wxf_expr(s[0]) + wxf_exprs(t.take(i - 1)));
        assert(t[i - 1] == s[i]);
        assert(wxf_exprs(s.take(i + 1)) =~= wxf_exprs(s.take(i)) + wxf_expr(s[i]));
    }
}

/// Append the varint encoding of `n` to `out`.
fn push_varint(out: &mut Vec<u8>, n: usize)
    ensures
        final(out)@ == old(out)@ + varint(n as nat),
{
    let ghost base = out@;
    let mut rest = n;
    loop
        invariant
            base == old(out)@,
            varint(n as nat) == out@.skip(base.len() as int) + varint(rest as nat),
            out@.len() >= base.len(),
            out@.take(base.len() as int) == base,
        decreases rest,
    {
        let ghost pre = out@;
        if rest < 128 {
            out.push(rest as u8);
            proof {
                assert(varint(rest as nat) == seq![rest as u8]);
                assert(out@.skip(base.len() as int) =~= pre.skip(base.len() as int).push(
                    rest as u8,
                ));
                assert(out@.skip(base.len() as int) =~= pre.skip(base.len() as int) + varint(
                    rest as nat,
                ));
                assert(varint(n as nat) =~= out@.skip(base.len() as int));
                assert(out@.take(base.len() as int) =~= base);
                assert(out@ =~= base + varint(n as nat));
            }
            return ;
        }
        let byte = (rest % 128 + 128) as u8;
        out.push(byte);
        proof {
            assert(varint(rest as nat) == seq![byte] + varint((rest / 128) as nat));
            assert(out@.skip(base.len() as int) =~= pre.skip(base.len() as int).push(byte));
            assert(out@.skip(base.len() as int) + varint((rest / 128) as nat) =~= pre.skip(
                base.len() as int,
            ) + varint(rest as nat));
            assert(out@.take(base.len() as int) =~= base);
        }
        rest = rest / 128;
    }
}

impl crate::symbol::Symbol {
    /// Append this symbol's node encoding to `out`.
    fn write_internal(&self, out: &mut Vec<u8>)
        ensures
            final(out)@ == old(out)@ + seq![115u8] + varint(encode_utf8(self@).len())
                + encode_utf8(self@),
    {
        let text = self.as_str();
        let bytes = text.as_bytes();
        out.push(115);
        push_varint(out, bytes.len());
        out.extend_from_slice(bytes);
        proof {
            assert(bytes@ == encode_utf8(self@));
            assert(out@ =~= old(out)@ + seq![115u8] + varint(encode_utf8(self@).len())
                + encode_utf8(self@));
        }
    }
}

impl Normal {
    /// Append this applied form's node encoding to `out`.
    fn write_internal(&self, out: &mut Vec<u8>)
        ensures
            final(out)@ == old(out)@ + wxf_expr(self@),
        decreases self@, 0int,
    {
        proof {
            crate::expr::lemma_exprs_view(self.contents@);
            crate::expr::lemma_normal_view(self);
        }
        let ghost views = crate::expr::exprs_view(self.contents@);
        out.push(102);
        push_varint(out, self.contents.len());
        proof {
            crate::expr::lemma_normal_view(self);
            assert(decreases_to!(self@ => self.head@));
        }
        self.head.write_internal(out);
        let ghost base = out@;
        let len = self.contents.len();
        let mut i: usize = 0;
        while i < len
            invariant
                i <= len,
                len == self.contents@.len(),
                views == crate::expr::exprs_view(self.contents@),
                views == crate::expr::view_contents(self@),
                views.len() == len,
                self@ is Normal,
                out@ == base + wxf_exprs(views.take(i as int)),
            decreases len - i, self@, 0int,
        {
            proof {
                crate::expr::lemma_exprs_view(self.contents@);
                crate::expr::lemma_normal_view(self);
                assert(views[i as int] == self.contents@[i as int]@);
                assert(self@->contents == views);
                assert(decreases_to!(self@ => views));
                assert(decreases_to!(views => views[i as int]));
                assert(decreases_to!(self@ => self.contents@[i as int]@));
            }
            let ghost before = out@;
            let elem = &self.contents[i];
            elem.write_internal(out);
            proof {
                lemma_wxf_exprs_take_step(views, i as int);
                assert(out@ =~= base + wxf_exprs(views.take(i as int + 1)));
            }
            i = i + 1;
        }
        proof {
            crate::expr::lemma_normal_view(self);
            assert(views.take(len as int) =~= views);
            assert(wxf_expr(self@) == seq![102u8] + varint(views.len()) + wxf_expr(
                crate::expr::view_head(self@),
            ) + wxf_exprs(views));
            assert(out@ =~= old(out)@ + wxf_expr(self@));
        }
    }
}

impl Expr {
    /// Append this expression's node encoding to `out`.
    fn write_internal(&self, out: &mut Vec<u8>)
        ensures
            final(out)@ == old(out)@ + wxf_expr(self@),
        decreases self@, 1int,
    {
        match self.kind() {
            ExprKind::Integer(i) => {
                out.push(76);
                let mut tail = u64_to_le_bytes(*i as u64);
                out.append(&mut tail);
                proof {
                    assert(out@ =~= old(out)@ + wxf_expr(self@));
                }
            },
            ExprKind::Real(v) => {
                out.push(114);
                let mut tail = u64_to_le_bytes(v.bits());
                out.append(&mut tail);
                proof {
                    assert(out@ =~= old(out)@ + wxf_expr(self@));
                }
            },
            ExprKind::String(s) => {
                let bytes = s.as_str().as_bytes();
                out.push(83);
                push_varint(out, bytes.len());
                out.extend_from_slice(bytes);
                proof {
                    assert(bytes@ == encode_utf8(s@));
                    assert(out@ =~= old(out)@ + wxf_expr(self@));
                }
            },
            ExprKind::Symbol(s) => {
                s.write_internal(out);
            },
            ExprKind::Normal(n) => {
                proof {
                    assert(n@ == self@);
                }
                n.write_internal(out);
            },
        }
    }

    /// Encode this expression in the uncompressed wire format: the header
    /// `8:`, then the tree's node encoding.
    pub fn as_wxf(&self) -> (out: Vec<u8>)
        ensures
            out@ == seq![56u8, 58u8] + wxf_expr(self@),
    {
        let mut out: Vec<u8> = Vec::new();
        out.push(56);
        out.push(58);
        self.write_internal(&mut out);
        proof {
            assert(out@ =~= seq![56u8, 58u8] + wxf_expr(self@));
        }
        out
    }
}


/// The zlib stream that compressing `data` at the fixed level produces. The
/// stream is a function of the input bytes alone.
pub uninterp spec fn zlib_of(data: Seq<u8>) -> Seq<u8>;

/// Relies on flate2's `ZlibEncoder` (`new`, `write_all`, `finish`): fed the
/// whole input at compression level 9, it writes the zlib encoding of exactly
/// those bytes into the wrapped buffer, deterministically in the input.
#[verifier::external_body]
fn zlib_compress(data: &Vec<u8>) -> (r: Vec<u8>)
    ensures
        r@ == zlib_of(data@),
{
    let mut encoder = flate2::write::ZlibEncoder::new(Vec::new(), flate2::Compression::new(9));
    let written = encoder.write_all(data.as_slice());
    written.and_then(|_| encoder.finish()).expect("unknown error when compress")
}

impl Expr {
    /// Encode this expression in the compressed wire format: the header
    /// `8C:`, then the zlib stream of the tree's node encoding.
    pub fn as_wxf_compressed(&self) -> (out: Vec<u8>)
        ensures
            out@ == seq![56u8, 67u8, 58u8] + zlib_of(wxf_expr(self@)),
    {
        let mut body: Vec<u8> = Vec::new();
        self.write_internal(&mut body);
        let mut compressed = zlib_compress(&body);
        let mut out: Vec<u8> = Vec::new();
        out.push(56);
        out.push(67);
        out.push(58);
        out.append(&mut compressed);
        proof {
            assert(out@ =~= seq![56u8, 67u8, 58u8] + zlib_of(wxf_expr(self@)));
        }
        out
    }
}


/// Equal-length prefixes of equal byte streams are equal, and so are the
/// remainders.
proof fn lemma_concat_cancel(x: Seq<u8>, r1: Seq<u8>, y: Seq<u8>, r2: Seq<u8>)
    requires
        x + r1 == y + r2,
        x.len() == y.len(),
    ensures
        x == y,
        r1 == r2,
{
    assert forall|i: int| 0 <= i < x.len() implies x[i] == y[i] by {
        assert((x + r1)[i] == x[i]);
        assert((y + r2)[i] == y[i]);
    }
    assert(x =~= y);
    assert((x + r1).len() == (y + r2).len());
    assert((x + r1).len() == x.len() + r1.len());
    assert((y + r2).len() == y.len() + r2.len());
    assert(r1.len() == r2.len());
    assert forall|i: int| 0 <= i < r1.len() implies r1[i] == r2[i] by {
        assert((x + r1)[x.len() + i] == r1[i]);
        assert((y + r2)[y.len() + i] == r2[i]);
    }
    assert(r1 =~= r2);
}

/// A varint is recovered from any byte stream it starts.
proof fn lemma_varint_prefix(m: nat, n: nat, r1: Seq<u8>, r2: Seq<u8>)
    requires
        varint(m) + r1 == varint(n) + r2,
    ensures
        m == n,
        r1 == r2,
    decreases m,
{
    let sm = varint(m) + r1;
    let sn = varint(n) + r2;
    assert(varint(m).len() >= 1);
    assert(sm[0] == varint(m)[0]);
    assert(sn[0] == varint(n)[0]);
    if m < 128 && n < 128 {
        assert(varint(m) == seq![m as u8]);
        assert(varint(n) == seq![n as u8]);
        assert(m as u8 == n as u8);
        assert(m == n);
        lemma_concat_cancel(varint(m), r1, varint(n), r2);
    } else if m < 128 && n >= 128 {
        assert(varint(m)[0] == m as u8);
        assert(varint(n)[0] == (n % 128 + 128) as u8);
        assert((m as u8) < 128);
        assert(n % 128 + 128 < 256);
        assert(((n % 128 + 128) as u8) >= 128);
        assert(false);
    } else if m >= 128 && n < 128 {
        assert(varint(m)[0] == (m % 128 + 128) as u8);
        assert(m % 128 + 128 < 256);
        assert(((m % 128 + 128) as u8) >= 128);
        assert(varint(n)[0] == n as u8);
        assert((n as u8) < 128);
        assert(false);
    } else {
        assert(varint(m) == seq![(m % 128 + 128) as u8] + varint(m / 128));
        assert(varint(n) == seq![(n % 128 + 128) as u8] + varint(n / 128));
        assert(m % 128 + 128 < 256);
        assert(n % 128 + 128 < 256);
        assert(sm[0] == (m % 128 + 128) as u8);
        assert(sn[0] == (n % 128 + 128) as u8);
        assert(m % 128 == n % 128);
        assert(varint(m / 128) + r1 =~= varint(n / 128) + r2) by {
            assert(sm =~= seq![(m % 128 + 128) as u8] + (varint(m / 128) + r1));
            assert(sn =~= seq![(n % 128 + 128) as u8] + (varint(n / 128) + r2));
            assert forall|i: int| 0 <= i < (varint(m / 128) + r1).len() implies #[trigger] (
            varint(m / 128) + r1)[i] == (varint(n / 128) + r2)[i] by {
                assert(sm[i + 1] == (varint(m / 128) + r1)[i]);
                assert(sn[i + 1] == (varint(n / 128) + r2)[i]);
            }
        }
        vstd::arithmetic::div_mod::lemma_div_decreases(m as int, 128);
        lemma_varint_prefix(m / 128, n / 128, r1, r2);
        vstd::arithmetic::div_mod::lemma_fundamental_div_mod(m as int, 128);
        vstd::arithmetic::div_mod::lemma_fundamental_div_mod(n as int, 128);
    }
}

/// The node encodings of two sequences of equal length determine the
/// sequences, element by element.
proof fn lemma_wxf_exprs_prefix(s1: Seq<ExprView>, s2: Seq<ExprView>, r1: Seq<u8>, r2: Seq<u8>)
    requires
        s1.len() == s2.len(),
        wxf_exprs(s1) + r1 == wxf_exprs(s2) + r2,
    ensures
        s1 == s2,
        r1 == r2,
    decreases s1, 0int,
{
    if s1.len() == 0 {
        assert(wxf_exprs(s1) == Seq::<u8>::empty());
        assert(wxf_exprs(s2) == Seq::<u8>::empty());
        lemma_concat_cancel(wxf_exprs(s1), r1, wxf_exprs(s2), r2);
    } else {
        let t1 = s1.subrange(1, s1.len() as int);
        let t2 = s2.subrange(1, s2.len() as int);
        assert(wxf_exprs(s1) == wxf_expr(s1[0]) + wxf_exprs(t1));
        assert(wxf_exprs(s2) == wxf_expr(s2[0]) + wxf_exprs(t2));
        assert(wxf_expr(s1[0]) + (wxf_exprs(t1) + r1) =~= wxf_exprs(s1) + r1);
        assert(wxf_expr(s2[0]) + (wxf_exprs(t2) + r2) =~= wxf_exprs(s2) + r2);
        lemma_wxf_expr_prefix(s1[0], s2[0], wxf_exprs(t1) + r1, wxf_exprs(t2) + r2);
        lemma_wxf_exprs_prefix(t1, t2, r1, r2);
        assert forall|i: int| 0 <= i < s1.len() implies s1[i] == s2[i] by {
            if i > 0 {
                assert(t1[i - 1] == s1[i]);
                assert(t2[i - 1] == s2[i]);
            }
        }
        assert(s1 =~= s2);
    }
}

/// The node encoding of a tree determines the tree: whatever follows it in a
/// byte stream, both the tree and the remainder are recovered.
pub proof fn lemma_wxf_expr_prefix(a: ExprView, b: ExprView, r1: Seq<u8>, r2: Seq<u8>)
    requires
        wxf_expr(a) + r1 == wxf_expr(b) + r2,
    ensures
        a == b,
        r1 == r2,
    decreases a, 1int,
{
    let sa = wxf_expr(a) + r1;
    let sb = wxf_expr(b) + r2;
    assert(sa[0] == wxf_expr(a)[0]);
    assert(sb[0] == wxf_expr(b)[0]);
    vstd::bytes::lemma_auto_spec_u64_to_from_le_bytes();
    match (a, b) {
        (ExprView::Integer(x), ExprView::Integer(y)) => {
            assert(wxf_expr(a) == seq![76u8] + spec_u64_to_le_bytes(x as u64));
            assert(wxf_expr(b) == seq![76u8] + spec_u64_to_le_bytes(y as u64));
            lemma_concat_cancel(wxf_expr(a), r1, wxf_expr(b), r2);
            lemma_concat_cancel(
                seq![76u8],
                spec_u64_to_le_bytes(x as u64),
                seq![76u8],
                spec_u64_to_le_bytes(y as u64),
            );
            assert(spec_u64_to_le_bytes(x as u64) == spec_u64_to_le_bytes(y as u64));
            assert(x as u64 == y as u64);
            assert(x == y) by (bit_vector)
                requires
                    x as u64 == y as u64,
            ;
        },
        (ExprView::Real(x), ExprView::Real(y)) => {
            assert(wxf_expr(a) == seq![114u8] + spec_u64_to_le_bytes(x));
            assert(wxf_expr(b) == seq![114u8] + spec_u64_to_le_bytes(y));
            lemma_concat_cancel(wxf_expr(a), r1, wxf_expr(b), r2);
            lemma_concat_cancel(
                seq![114u8],
                spec_u64_to_le_bytes(x),
                seq![114u8],
                spec_u64_to_le_bytes(y),
            );
            assert(spec_u64_to_le_bytes(x) == spec_u64_to_le_bytes(y));
        },
        (ExprView::String(x), ExprView::String(y)) => {
            lemma_wxf_text_prefix(x, y, r1, r2, 83);
        },
        (ExprView::Symbol(x), ExprView::Symbol(y)) => {
            lemma_wxf_text_prefix(x, y, r1, r2, 115);
        },
        (
            ExprView::Normal { head: h1, contents: c1 },
            ExprView::Normal { head: h2, contents: c2 },
        ) => {
            assert(wxf_expr(a) == seq![102u8] + varint(c1.len()) + wxf_expr(*h1) + wxf_exprs(c1));
            assert(wxf_expr(b) == seq![102u8] + varint(c2.len()) + wxf_expr(*h2) + wxf_exprs(c2));
            let ta1 = varint(c1.len()) + (wxf_expr(*h1) + (wxf_exprs(c1) + r1));
            let tb1 = varint(c2.len()) + (wxf_expr(*h2) + (wxf_exprs(c2) + r2));
            assert(sa =~= seq![102u8] + ta1);
            assert(sb =~= seq![102u8] + tb1);
            lemma_concat_cancel(seq![102u8], ta1, seq![102u8], tb1);
            lemma_varint_prefix(
                c1.len(),
                c2.len(),
                wxf_expr(*h1) + (wxf_exprs(c1) + r1),
                wxf_expr(*h2) + (wxf_exprs(c2) + r2),
            );
            assert(a->head == h1);
            assert(decreases_to!(a => *h1));
            lemma_wxf_expr_prefix(*h1, *h2, wxf_exprs(c1) + r1, wxf_exprs(c2) + r2);
            assert(a->contents == c1);
            assert(decreases_to!(a => c1));
            lemma_wxf_exprs_prefix(c1, c2, r1, r2);
        },
        _ => {
            assert(sa[0] == sb[0]);
            assert(false);
        },
    }
}

/// A text node (string or symbol) is recovered from any byte stream it
/// starts.
proof fn lemma_wxf_text_prefix(x: Seq<char>, y: Seq<char>, r1: Seq<u8>, r2: Seq<u8>, tag: u8)
    requires
        seq![tag] + varint(encode_utf8(x).len()) + encode_utf8(x) + r1 == seq![tag] + varint(
            encode_utf8(y).len(),
        ) + encode_utf8(y) + r2,
    ensures
        x == y,
        r1 == r2,
{
    let bx = encode_utf8(x);
    let by = encode_utf8(y);
    let tx = varint(bx.len()) + (bx + r1);
    let ty = varint(by.len()) + (by + r2);
    assert(seq![tag] + tx =~= seq![tag] + varint(bx.len()) + bx + r1);
    assert(seq![tag] + ty =~= seq![tag] + varint(by.len()) + by + r2);
    lemma_concat_cancel(seq![tag], tx, seq![tag], ty);
    lemma_varint_prefix(bx.len(), by.len(), bx + r1, by + r2);
    lemma_concat_cancel(bx, r1, by, r2);
    vstd::utf8::encode_utf8_decode_utf8(x);
    vstd::utf8::encode_utf8_decode_utf8(y);
}

/// No two distinct trees share a node encoding: together with the fixed
/// header this makes the wire format injective over expression values.
pub proof fn lemma_wxf_injective(a: ExprView, b: ExprView)
    requires
        wxf_expr(a) == wxf_expr(b),
    ensures
        a == b,
{
    assert(wxf_expr(a) + Seq::<u8>::empty() =~= wxf_expr(b) + Seq::<u8>::empty());
    lemma_wxf_expr_prefix(a, b, Seq::<u8>::empty(), Seq::<u8>::empty());
}


/// The whole wire format is injective: two expressions that encode to the
/// same bytes denote the same tree.
pub proof fn lemma_as_wxf_injective(a: ExprView, b: ExprView)
    requires
        seq![56u8, 58u8] + wxf_expr(a) == seq![56u8, 58u8] + wxf_expr(b),
    ensures
        a == b,
{
    lemma_concat_cancel(seq![56u8, 58u8], wxf_expr(a), seq![56u8, 58u8], wxf_expr(b));
    lemma_wxf_injective(a, b);
}

} // verus!
