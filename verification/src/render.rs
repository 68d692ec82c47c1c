//! Rendering a parsed script as a human-readable table.
//!
//! One line per frame, with left-aligned columns for the delay (in ticks),
//! the `on` mask (binary), the `off` mask (binary), and the two stick
//! displacements (a neutral stick standing in where a frame leaves one
//! unset). This rendering is a debugging aid, not part of the execution
//! contract; it is a pure function of the frames ([`tas_text`]), so
//! rendering the same script twice yields the same bytes
//! ([`lemma_render_deterministic`]).

use vstd::prelude::*;

use crate::parse::{Line, Tas};
use crate::stick::Stick;

verus! {

/// The decimal digits of `n`, most significant first.
pub open spec fn dec_digits(n: nat) -> Seq<u8>
    decreases n,
{
    if n < 10 {
        seq![(48 + n) as u8]
    } else {
        dec_digits(n / 10).push((48 + n % 10) as u8)
    }
}

/// The binary digits of `n`, most significant first.
pub open spec fn bin_digits(n: nat) -> Seq<u8>
    decreases n,
{
    if n < 2 {
        seq![(48 + n) as u8]
    } else {
        bin_digits(n / 2).push((48 + n % 2) as u8)
    }
}

/// The decimal digits of `v`, with a leading minus sign when negative.
pub open spec fn dec_signed(v: int) -> Seq<u8> {
    if v < 0 {
        seq![45u8] + dec_digits((-v) as nat)
    } else {
        dec_digits(v as nat)
    }
}

/// `k` spaces.
pub open spec fn spaces(k: nat) -> Seq<u8> {
    Seq::new(k, |i: int| 32u8)
}

/// `s` left-aligned in a column of width `w` (kept as is when longer).
pub open spec fn pad_to(s: Seq<u8>, w: nat) -> Seq<u8> {
    s + spaces(if s.len() < w {
        (w - s.len()) as nat
    } else {
        0
    })
}

/// A stick displacement as `(x: ..; y: ..)`.
pub open spec fn stick_text(s: Stick) -> Seq<u8> {
    seq![40u8, 120u8, 58u8, 32u8] + dec_signed(s.x as int) + seq![59u8, 32u8, 121u8, 58u8, 32u8]
        + dec_signed(s.y as int) + seq![41u8]
}

/// A stick column's value: the frame's displacement, or neutral.
pub open spec fn stick_or_default(o: Option<Stick>) -> Stick {
    match o {
        Some(s) => s,
        None => Stick { x: 0, y: 0 },
    }
}

/// One frame as a table row, line break included.
pub open spec fn line_text(l: Line) -> Seq<u8> {
    pad_to(dec_digits(l.delay as nat), 8) + seq![32u8] + pad_to(bin_digits(l.on as nat), 16)
        + seq![32u8] + pad_to(bin_digits(l.off as nat), 16) + seq![32u8] + pad_to(
        stick_text(stick_or_default(l.lstick)),
        20,
    ) + seq![32u8] + stick_text(stick_or_default(l.rstick)) + seq![10u8]
}

/// The table rows for `ls[i..]`.
pub open spec fn lines_text(ls: Seq<Line>, i: int) -> Seq<u8>
    decreases ls.len() - i,
    when 0 <= i <= ls.len()
{
    if i >= ls.len() {
        Seq::empty()
    } else {
        line_text(ls[i]) + lines_text(ls, i + 1)
    }
}

/// The column headings.
pub open spec fn header_text() -> Seq<u8> {
    seq![70u8, 114u8, 97u8, 109u8, 101u8, 115u8, 32u8, 32u8, 32u8, 79u8, 110u8, 32u8, 32u8, 32u8, 32u8, 32u8, 32u8, 32u8, 32u8, 32u8, 32u8, 32u8, 32u8, 32u8, 32u8, 32u8, 79u8, 102u8, 102u8, 32u8, 32u8, 32u8, 32u8, 32u8, 32u8, 32u8, 32u8, 32u8, 32u8, 32u8, 32u8, 32u8, 32u8, 76u8, 101u8, 102u8, 116u8, 32u8, 83u8, 116u8, 105u8, 99u8, 107u8, 32u8, 32u8, 32u8, 32u8, 32u8, 32u8, 32u8, 32u8, 32u8, 32u8, 32u8, 82u8, 105u8, 103u8, 104u8, 116u8, 32u8, 83u8, 116u8, 105u8, 99u8, 107u8]
}

/// The whole table: headings, then one row per frame.
pub open spec fn tas_text(ls: Seq<Line>) -> Seq<u8> {
    header_text() + seq![10u8] + lines_text(ls, 0)
}

/// The decimal digits of `v`.
fn u64_to_dec(v: u64) -> (r: Vec<u8>)
    ensures
        r@ == dec_digits(v as nat),
    decreases v,
{
    if v < 10 {
        let mut out: Vec<u8> = Vec::new();
        out.push(48 + (v as u8));
        proof {
            assert(out@ =~= dec_digits(v as nat));
        }
        out
    } else {
        proof {
            assert(v / 10 < v) by (nonlinear_arith)
                requires
                    v >= 10,
            ;
        }
        let mut out = u64_to_dec(v / 10);
        out.push(48 + ((v % 10) as u8));
        out
    }
}

/// The binary digits of `v`.
fn u16_to_bin(v: u16) -> (r: Vec<u8>)
    ensures
        r@ == bin_digits(v as nat),
    decreases v,
{
    if v < 2 {
        let mut out: Vec<u8> = Vec::new();
        out.push(48 + (v as u8));
        proof {
            assert(out@ =~= bin_digits(v as nat));
        }
        out
    } else {
        let mut out = u16_to_bin(v / 2);
        out.push(48 + ((v % 2) as u8));
        out
    }
}

/// The signed decimal digits of `v`.
fn i16_to_dec(v: i16) -> (r: Vec<u8>)
    ensures
        r@ == dec_signed(v as int),
{
    if v < 0 {
        let m: i32 = -(v as i32);
        let mut out: Vec<u8> = Vec::new();
        out.push(45);
        let mut d = u64_to_dec(m as u64);
        proof {
            assert(out@ =~= seq![45u8]);
        }
        out.append(&mut d);
        out
    } else {
        u64_to_dec(v as u64)
    }
}

/// Append `piece` to `out`, space-padded to width `w`.
fn append_padded(out: &mut Vec<u8>, piece: Vec<u8>, w: usize)
    ensures
        final(out)@ == old(out)@ + pad_to(piece@, w as nat),
{
    let n = piece.len();
    let mut p = piece;
    let ghost base = out@;
    let ghost pv = p@;
    out.append(&mut p);
    let pad: usize = if n < w {
        w - n
    } else {
        0
    };
    proof {
        assert(base + pv + spaces(0) =~= base + pv);
    }
    let mut k: usize = 0;
    while k < pad
        invariant
            k <= pad,
            out@ == base + pv + spaces(k as nat),
        decreases pad - k,
    {
        proof {
            assert((base + pv + spaces(k as nat)).push(32u8) =~= base + pv + spaces(
                (k + 1) as nat,
            ));
        }
        out.push(32);
        k = k + 1;
    }
    proof {
        assert(base + pv + spaces(pad as nat) =~= base + pad_to(pv, w as nat));
    }
}

/// A stick displacement as `(x: ..; y: ..)`.
fn stick_bytes(s: &Stick) -> (r: Vec<u8>)
    ensures
        r@ == stick_text(*s),
{
    let mut out: Vec<u8> = Vec::new();
    out.push(40);
    out.push(120);
    out.push(58);
    out.push(32);
    proof {
        assert(out@ =~= seq![40u8, 120u8, 58u8, 32u8]);
    }
    let ghost p1 = out@;
    let mut d = i16_to_dec(s.x);
    out.append(&mut d);
    out.push(59);
    out.push(32);
    out.push(121);
    out.push(58);
    out.push(32);
    proof {
        assert(out@ =~= p1 + dec_signed(s.x as int) + seq![59u8, 32u8, 121u8, 58u8, 32u8]);
    }
    let ghost p2 = out@;
    let mut d2 = i16_to_dec(s.y);
    out.append(&mut d2);
    out.push(41);
    proof {
        assert(out@ =~= p2 + dec_signed(s.y as int) + seq![41u8]);
        assert(out@ =~= stick_text(*s));
    }
    out
}

/// One frame as a table row.
fn line_bytes(l: &Line) -> (r: Vec<u8>)
    ensures
        r@ == line_text(*l),
{
    let mut out: Vec<u8> = Vec::new();
    append_padded(&mut out, u64_to_dec(l.delay), 8);
    out.push(32);
    let ghost p1 = out@;
    append_padded(&mut out, u16_to_bin(l.on), 16);
    out.push(32);
    let ghost p2 = out@;
    append_padded(&mut out, u16_to_bin(l.off), 16);
    out.push(32);
    let ghost p3 = out@;
    let ls = match l.lstick {
        Some(s) => s,
        None => Stick { x: 0, y: 0 },
    };
    append_padded(&mut out, stick_bytes(&ls), 20);
    out.push(32);
    let ghost p4 = out@;
    let rs = match l.rstick {
        Some(s) => s,
        None => Stick { x: 0, y: 0 },
    };
    let mut rsb = stick_bytes(&rs);
    out.append(&mut rsb);
    out.push(10);
    proof {
        assert(p1 =~= pad_to(dec_digits(l.delay as nat), 8) + seq![32u8]);
        assert(p2 =~= p1 + pad_to(bin_digits(l.on as nat), 16) + seq![32u8]);
        assert(p3 =~= p2 + pad_to(bin_digits(l.off as nat), 16) + seq![32u8]);
        assert(p4 =~= p3 + pad_to(stick_text(stick_or_default(l.lstick)), 20) + seq![32u8]);
        assert(out@ =~= p4 + stick_text(stick_or_default(l.rstick)) + seq![10u8]);
        assert(out@ =~= line_text(*l));
    }
    out
}

/// The column headings.
#[verifier::rlimit(100)]
#[verifier::spinoff_prover]
fn header_bytes() -> (r: Vec<u8>)
    ensures
        r@ == header_text(),
{
    let mut out: Vec<u8> = Vec::new();
    out.push(70);
    out.push(114);
    out.push(97);
    out.push(109);
    out.push(101);
    out.push(115);
    out.push(32);
    out.push(32);
    out.push(32);
    out.push(79);
    out.push(110);
    out.push(32);
    out.push(32);
    out.push(32);
    out.push(32);
    out.push(32);
    out.push(32);
    out.push(32);
    out.push(32);
    out.push(32);
    out.push(32);
    out.push(32);
    out.push(32);
    out.push(32);
    out.push(32);
    out.push(32);
    out.push(79);
    out.push(102);
    out.push(102);
    out.push(32);
    out.push(32);
    out.push(32);
    out.push(32);
    out.push(32);
    out.push(32);
    out.push(32);
    out.push(32);
    out.push(32);
    out.push(32);
    out.push(32);
    out.push(32);
    out.push(32);
    out.push(32);
    out.push(76);
    out.push(101);
    out.push(102);
    out.push(116);
    out.push(32);
    out.push(83);
    out.push(116);
    out.push(105);
    out.push(99);
    out.push(107);
    out.push(32);
    out.push(32);
    out.push(32);
    out.push(32);
    out.push(32);
    out.push(32);
    out.push(32);
    out.push(32);
    out.push(32);
    out.push(32);
    out.push(32);
    out.push(82);
    out.push(105);
    out.push(103);
    out.push(104);
    out.push(116);
    out.push(32);
    out.push(83);
    out.push(116);
    out.push(105);
    out.push(99);
    out.push(107);
    proof {
        assert(out@ =~= header_text());
    }
    out
}

impl Tas {
    /// The script as a human-readable table: headings, then one row per
    /// frame. A pure function of the frames, so rendering twice yields the
    /// same bytes.
    pub fn render(&self) -> (r: Vec<u8>)
        ensures
            r@ == tas_text(self.lines@),
    {
        let ghost ls = self.lines@;
        let mut out = header_bytes();
        out.push(10);
        proof {
            assert(out@ =~= header_text() + seq![10u8]);
        }
        let mut i: usize = 0;
        while i < self.lines.len()
            invariant
                ls == self.lines@,
                i <= ls.len(),
                tas_text(ls) == out@ + lines_text(ls, i as int),
            decreases ls.len() - i,
        {
            let mut lb = line_bytes(&self.lines[i]);
            proof {
                assert(out@ + (line_text(ls[i as int]) + lines_text(ls, i + 1)) =~= (out@
                    + line_text(ls[i as int])) + lines_text(ls, i + 1));
            }
            out.append(&mut lb);
            i = i + 1;
        }
        proof {
            assert(out@ + Seq::<u8>::empty() =~= out@);
        }
        out
    }
}

/// Rendering is a function of the frames alone: two renderings of the same
/// frames are the same text, however often the table is produced.
pub proof fn lemma_render_deterministic(ls: Seq<Line>, r1: Seq<u8>, r2: Seq<u8>)
    requires
        r1 == tas_text(ls),
        r2 == tas_text(ls),
    ensures
        r1 == r2,
{
}

} // verus!
