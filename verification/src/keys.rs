//! Button names and bit masks.
//!
//! Each of the sixteen controller buttons owns one fixed bit of a 16-bit
//! mask; the bit positions are part of the wire contract with the playback
//! sink and are never reordered. `NONE` and `ALL` are the two sentinel
//! values. A key list in a script is folded together with bitwise OR, so a
//! key list denotes a set of buttons: order and repetition do not matter,
//! which `lemma_keys_mask_set_eq` states and proves.

use vstd::prelude::*;

verus! {

pub const NONE: u16 = 0;
pub const A: u16 = 0x0001;
pub const B: u16 = 0x0002;
pub const X: u16 = 0x0004;
pub const Y: u16 = 0x0008;
pub const L: u16 = 0x0010;
pub const R: u16 = 0x0020;
pub const ZL: u16 = 0x0040;
pub const ZR: u16 = 0x0080;
pub const DUP: u16 = 0x0100;
pub const DDOWN: u16 = 0x0200;
pub const DLEFT: u16 = 0x0400;
pub const DRIGHT: u16 = 0x0800;
pub const PLUS: u16 = 0x1000;
pub const MINUS: u16 = 0x2000;
pub const LSTICK: u16 = 0x4000;
pub const RSTICK: u16 = 0x8000;
pub const ALL: u16 = 0xffff;

/// Bits 10 and 11 double as the left and right trigger flags during
/// playback; they are masked out of the ordinary held-button update.
pub const TRIGGER_BITS: u16 = 0x0c00;

/// The mask a key identifier resolves to, or `None` for an unknown name.
/// Identifiers are byte strings of uppercase ASCII letters.
pub open spec fn key_value(k: Seq<u8>) -> Option<u16> {
    if k == seq![65u8] {
        Some(A)
    } else if k == seq![66u8] {
        Some(B)
    } else if k == seq![88u8] {
        Some(X)
    } else if k == seq![89u8] {
        Some(Y)
    } else if k == seq![76u8] {
        Some(L)
    } else if k == seq![82u8] {
        Some(R)
    } else if k == seq![90u8, 76u8] {
        Some(ZL)
    } else if k == seq![90u8, 82u8] {
        Some(ZR)
    } else if k == seq![68u8, 85u8, 80u8] {
        Some(DUP)
    } else if k == seq![68u8, 68u8, 79u8, 87u8, 78u8] {
        Some(DDOWN)
    } else if k == seq![68u8, 76u8, 69u8, 70u8, 84u8] {
        Some(DLEFT)
    } else if k == seq![68u8, 82u8, 73u8, 71u8, 72u8, 84u8] {
        Some(DRIGHT)
    } else if k == seq![80u8, 76u8, 85u8, 83u8] {
        Some(PLUS)
    } else if k == seq![77u8, 73u8, 78u8, 85u8, 83u8] {
        Some(MINUS)
    } else if k == seq![76u8, 83u8, 84u8, 73u8, 67u8, 75u8] {
        Some(LSTICK)
    } else if k == seq![82u8, 83u8, 84u8, 73u8, 67u8, 75u8] {
        Some(RSTICK)
    } else if k == seq![78u8, 79u8, 78u8, 69u8] {
        Some(NONE)
    } else if k == seq![65u8, 76u8, 76u8] {
        Some(ALL)
    } else {
        None
    }
}

/// Resolve one key identifier (`A`, `ZL`, `DUP`, ..., `NONE`, `ALL`) to its
/// button mask.
pub fn key2u16(key: &[u8]) -> (r: Option<u16>)
    ensures
        r == key_value(key@),
{
    let n = key.len();
    if n == 1 {
        let c = key[0];
        if c == 65 {
            proof { assert(key@ =~= seq![65u8]); }
            return Some(A);
        }
        if c == 66 {
            proof { assert(key@ =~= seq![66u8]); }
            return Some(B);
        }
        if c == 88 {
            proof { assert(key@ =~= seq![88u8]); }
            return Some(X);
        }
        if c == 89 {
            proof { assert(key@ =~= seq![89u8]); }
            return Some(Y);
        }
        if c == 76 {
            proof { assert(key@ =~= seq![76u8]); }
            return Some(L);
        }
        if c == 82 {
            proof { assert(key@ =~= seq![82u8]); }
            return Some(R);
        }
    } else if n == 2 {
        if key[0] == 90 && key[1] == 76 {
            proof { assert(key@ =~= seq![90u8, 76u8]); }
            return Some(ZL);
        }
        if key[0] == 90 && key[1] == 82 {
            proof { assert(key@ =~= seq![90u8, 82u8]); }
            return Some(ZR);
        }
    } else if n == 3 {
        if key[0] == 68 && key[1] == 85 && key[2] == 80 {
            proof { assert(key@ =~= seq![68u8, 85u8, 80u8]); }
            return Some(DUP);
        }
        if key[0] == 65 && key[1] == 76 && key[2] == 76 {
            proof { assert(key@ =~= seq![65u8, 76u8, 76u8]); }
            return Some(ALL);
        }
    } else if n == 4 {
        if key[0] == 80 && key[1] == 76 && key[2] == 85 && key[3] == 83 {
            proof { assert(key@ =~= seq![80u8, 76u8, 85u8, 83u8]); }
            return Some(PLUS);
        }
        if key[0] == 78 && key[1] == 79 && key[2] == 78 && key[3] == 69 {
            proof { assert(key@ =~= seq![78u8, 79u8, 78u8, 69u8]); }
            return Some(NONE);
        }
    } else if n == 5 {
        if key[0] == 68 && key[1] == 68 && key[2] == 79 && key[3] == 87 && key[4] == 78 {
            proof { assert(key@ =~= seq![68u8, 68u8, 79u8, 87u8, 78u8]); }
            return Some(DDOWN);
        }
        if key[0] == 68 && key[1] == 76 && key[2] == 69 && key[3] == 70 && key[4] == 84 {
            proof { assert(key@ =~= seq![68u8, 76u8, 69u8, 70u8, 84u8]); }
            return Some(DLEFT);
        }
        if key[0] == 77 && key[1] == 73 && key[2] == 78 && key[3] == 85 && key[4] == 83 {
            proof { assert(key@ =~= seq![77u8, 73u8, 78u8, 85u8, 83u8]); }
            return Some(MINUS);
        }
    } else if n == 6 {
        if key[0] == 68 && key[1] == 82 && key[2] == 73 && key[3] == 71 && key[4] == 72
            && key[5] == 84 {
            proof { assert(key@ =~= seq![68u8, 82u8, 73u8, 71u8, 72u8, 84u8]); }
            return Some(DRIGHT);
        }
        if key[0] == 76 && key[1] == 83 && key[2] == 84 && key[3] == 73 && key[4] == 67
            && key[5] == 75 {
            proof { assert(key@ =~= seq![76u8, 83u8, 84u8, 73u8, 67u8, 75u8]); }
            return Some(LSTICK);
        }
        if key[0] == 82 && key[1] == 83 && key[2] == 84 && key[3] == 73 && key[4] == 67
            && key[5] == 75 {
            proof { assert(key@ =~= seq![82u8, 83u8, 84u8, 73u8, 67u8, 75u8]); }
            return Some(RSTICK);
        }
    }
    None
}

/// The mask denoted by a sequence of key values, folded left to right with
/// bitwise OR.
pub open spec fn keys_mask(s: Seq<u16>) -> u16
    decreases s.len(),
{
    if s.len() == 0 {
        NONE
    } else {
        keys_mask(s.drop_last()) | s.last()
    }
}

/// A value already present in the sequence is absorbed by the fold.
proof fn lemma_keys_mask_absorb(s: Seq<u16>, v: u16)
    requires
        s.contains(v),
    ensures
        keys_mask(s) | v == keys_mask(s),
    decreases s.len(),
{
    let d = s.drop_last();
    let l = s.last();
    let m = keys_mask(d);
    if l == v {
        assert((m | v) | v == m | v) by (bit_vector);
    } else {
        let i = choose|i: int| 0 <= i < s.len() && s[i] == v;
        assert(d[i] == v);
        assert(d.contains(v));
        lemma_keys_mask_absorb(d, v);
        assert((m | l) | v == (m | v) | l) by (bit_vector);
    }
}

/// Folding a subset cannot add bits beyond the fold of the superset.
proof fn lemma_keys_mask_subset(s1: Seq<u16>, s2: Seq<u16>)
    requires
        forall|v: u16| s1.contains(v) ==> s2.contains(v),
    ensures
        keys_mask(s2) | keys_mask(s1) == keys_mask(s2),
    decreases s1.len(),
{
    let m2 = keys_mask(s2);
    if s1.len() == 0 {
        assert(m2 | 0 == m2) by (bit_vector);
    } else {
        let d = s1.drop_last();
        let l = s1.last();
        assert(s1[s1.len() - 1] == l);
        assert(s1.contains(l));
        assert(forall|v: u16| d.contains(v) ==> s1.contains(v)) by {
            assert forall|v: u16| d.contains(v) implies s1.contains(v) by {
                let i = choose|i: int| 0 <= i < d.len() && d[i] == v;
                assert(s1[i] == v);
            }
        }
        lemma_keys_mask_subset(d, s2);
        lemma_keys_mask_absorb(s2, l);
        let m1 = keys_mask(d);
        assert(m2 | (m1 | l) == (m2 | m1) | l) by (bit_vector);
    }
}

/// Prepending a value to a key list ORs it into the fold.
pub proof fn lemma_keys_mask_cons(v: u16, s: Seq<u16>)
    ensures
        keys_mask(seq![v] + s) == v | keys_mask(s),
    decreases s.len(),
{
    if s.len() == 0 {
        assert(seq![v] + s =~= seq![v]);
        assert(seq![v].drop_last() =~= Seq::<u16>::empty());
        assert(keys_mask(Seq::<u16>::empty()) == NONE);
        assert(keys_mask(seq![v]) == NONE | v);
        assert(0u16 | v == v | 0u16) by (bit_vector);
    } else {
        let t = seq![v] + s;
        assert(t.len() == 1 + s.len());
        assert(t.drop_last() =~= seq![v] + s.drop_last());
        assert(t.last() == s.last());
        lemma_keys_mask_cons(v, s.drop_last());
        let a = keys_mask(s.drop_last());
        let l = s.last();
        assert(keys_mask(t) == keys_mask(t.drop_last()) | l);
        assert(keys_mask(s) == a | l);
        assert((v | a) | l == v | (a | l)) by (bit_vector);
    }
}

/// Key-list OR is commutative and idempotent: two key lists that name the
/// same set of buttons fold to the same mask, whatever their order and
/// however often a name repeats.
pub proof fn lemma_keys_mask_set_eq(s1: Seq<u16>, s2: Seq<u16>)
    requires
        forall|v: u16| s1.contains(v) <==> s2.contains(v),
    ensures
        keys_mask(s1) == keys_mask(s2),
{
    lemma_keys_mask_subset(s1, s2);
    lemma_keys_mask_subset(s2, s1);
    let m1 = keys_mask(s1);
    let m2 = keys_mask(s2);
    assert(m2 | m1 == m2 && m1 | m2 == m1 ==> m1 == m2) by (bit_vector);
}

} // verus!
