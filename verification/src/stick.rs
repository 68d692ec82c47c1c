//! The stick resolver: an angle/magnitude pair to a 2D displacement.
//!
//! A stick operation gives an angle in degrees and a magnitude. The
//! components are `x = ceil(sin(angle) * magnitude)` and
//! `y = ceil(cos(angle) * magnitude)`, saturated to the signed 16-bit
//! range. The sine here is the scaled-integer sine [`sin_scaled`]: the real
//! sine of each whole degree, scaled by one million and rounded to the
//! nearest integer ([`sin_q_scaled`] lists the first quadrant; the other
//! three follow by reflection). Rounding the product up (ceiling, not
//! round-to-nearest) is deliberate and part of the contract.
//!
//! A vector is computed once at parse time and never re-derived during
//! playback.

use vstd::prelude::*;

use crate::token::{tok_col, tok_line, tok_num_val, tokens_view, Token, TokenV};
use crate::TasError;

verus! {

/// The fixed-point scale of the sine table: one million.
pub const SIN_SCALE: u64 = 1000000;

/// The sine of `d` whole degrees for `0 <= d <= 90`, times one million,
/// rounded to the nearest integer.
pub open spec fn sin_q_scaled(d: int) -> int {
    if d == 0 {
        0
    } else if d == 1 {
        17452
    } else if d == 2 {
        34899
    } else if d == 3 {
        52336
    } else if d == 4 {
        69756
    } else if d == 5 {
        87156
    } else if d == 6 {
        104528
    } else if d == 7 {
        121869
    } else if d == 8 {
        139173
    } else if d == 9 {
        156434
    } else if d == 10 {
        173648
    } else if d == 11 {
        190809
    } else if d == 12 {
        207912
    } else if d == 13 {
        224951
    } else if d == 14 {
        241922
    } else if d == 15 {
        258819
    } else if d == 16 {
        275637
    } else if d == 17 {
        292372
    } else if d == 18 {
        309017
    } else if d == 19 {
        325568
    } else if d == 20 {
        342020
    } else if d == 21 {
        358368
    } else if d == 22 {
        374607
    } else if d == 23 {
        390731
    } else if d == 24 {
        406737
    } else if d == 25 {
        422618
    } else if d == 26 {
        438371
    } else if d == 27 {
        453990
    } else if d == 28 {
        469472
    } else if d == 29 {
        484810
    } else if d == 30 {
        500000
    } else if d == 31 {
        515038
    } else if d == 32 {
        529919
    } else if d == 33 {
        544639
    } else if d == 34 {
        559193
    } else if d == 35 {
        573576
    } else if d == 36 {
        587785
    } else if d == 37 {
        601815
    } else if d == 38 {
        615661
    } else if d == 39 {
        629320
    } else if d == 40 {
        642788
    } else if d == 41 {
        656059
    } else if d == 42 {
        669131
    } else if d == 43 {
        681998
    } else if d == 44 {
        694658
    } else if d == 45 {
        707107
    } else if d == 46 {
        719340
    } else if d == 47 {
        731354
    } else if d == 48 {
        743145
    } else if d == 49 {
        754710
    } else if d == 50 {
        766044
    } else if d == 51 {
        777146
    } else if d == 52 {
        788011
    } else if d == 53 {
        798636
    } else if d == 54 {
        809017
    } else if d == 55 {
        819152
    } else if d == 56 {
        829038
    } else if d == 57 {
        838671
    } else if d == 58 {
        848048
    } else if d == 59 {
        857167
    } else if d == 60 {
        866025
    } else if d == 61 {
        874620
    } else if d == 62 {
        882948
    } else if d == 63 {
        891007
    } else if d == 64 {
        898794
    } else if d == 65 {
        906308
    } else if d == 66 {
        913545
    } else if d == 67 {
        920505
    } else if d == 68 {
        927184
    } else if d == 69 {
        933580
    } else if d == 70 {
        939693
    } else if d == 71 {
        945519
    } else if d == 72 {
        951057
    } else if d == 73 {
        956305
    } else if d == 74 {
        961262
    } else if d == 75 {
        965926
    } else if d == 76 {
        970296
    } else if d == 77 {
        974370
    } else if d == 78 {
        978148
    } else if d == 79 {
        981627
    } else if d == 80 {
        984808
    } else if d == 81 {
        987688
    } else if d == 82 {
        990268
    } else if d == 83 {
        992546
    } else if d == 84 {
        994522
    } else if d == 85 {
        996195
    } else if d == 86 {
        997564
    } else if d == 87 {
        998630
    } else if d == 88 {
        999391
    } else if d == 89 {
        999848
    } else {
        1000000
    }
}

/// The sine of `d` whole degrees for `0 <= d < 360`, times one million:
/// the first-quadrant table reflected into the full circle.
pub open spec fn sin_scaled(d: int) -> int {
    if d <= 90 {
        sin_q_scaled(d)
    } else if d <= 180 {
        sin_q_scaled(180 - d)
    } else if d <= 270 {
        -sin_q_scaled(d - 180)
    } else {
        -sin_q_scaled(360 - d)
    }
}

/// The cosine of `d` whole degrees for `0 <= d < 360`, times one million.
pub open spec fn cos_scaled(d: int) -> int {
    sin_scaled((d + 90) % 360)
}

/// The ceiling of `p / q` for `q > 0`.
pub open spec fn ceil_div(p: int, q: int) -> int {
    if p >= 0 {
        (p + q - 1) / q
    } else {
        -((-p) / q)
    }
}

/// Saturate to the signed 16-bit range.
pub open spec fn clamp_i16(v: int) -> int {
    if v > 32767 {
        32767
    } else if v < -32768 {
        -32768
    } else {
        v
    }
}

/// The x displacement of a stick pushed to `angle` degrees at `mag`.
pub open spec fn stick_x(angle: u64, mag: u64) -> int {
    clamp_i16(ceil_div(sin_scaled(angle as int % 360) * mag as int, SIN_SCALE as int))
}

/// The y displacement of a stick pushed to `angle` degrees at `mag`.
pub open spec fn stick_y(angle: u64, mag: u64) -> int {
    clamp_i16(ceil_div(cos_scaled(angle as int % 360) * mag as int, SIN_SCALE as int))
}

/// First-quadrant sine lookup, scaled by one million.
fn sin_q_lookup(d: u16) -> (r: u64)
    requires
        d <= 90,
    ensures
        r as int == sin_q_scaled(d as int),
        r <= 1000000,
{
    match d {
        0 => 0,
        1 => 17452,
        2 => 34899,
        3 => 52336,
        4 => 69756,
        5 => 87156,
        6 => 104528,
        7 => 121869,
        8 => 139173,
        9 => 156434,
        10 => 173648,
        11 => 190809,
        12 => 207912,
        13 => 224951,
        14 => 241922,
        15 => 258819,
        16 => 275637,
        17 => 292372,
        18 => 309017,
        19 => 325568,
        20 => 342020,
        21 => 358368,
        22 => 374607,
        23 => 390731,
        24 => 406737,
        25 => 422618,
        26 => 438371,
        27 => 453990,
        28 => 469472,
        29 => 484810,
        30 => 500000,
        31 => 515038,
        32 => 529919,
        33 => 544639,
        34 => 559193,
        35 => 573576,
        36 => 587785,
        37 => 601815,
        38 => 615661,
        39 => 629320,
        40 => 642788,
        41 => 656059,
        42 => 669131,
        43 => 681998,
        44 => 694658,
        45 => 707107,
        46 => 719340,
        47 => 731354,
        48 => 743145,
        49 => 754710,
        50 => 766044,
        51 => 777146,
        52 => 788011,
        53 => 798636,
        54 => 809017,
        55 => 819152,
        56 => 829038,
        57 => 838671,
        58 => 848048,
        59 => 857167,
        60 => 866025,
        61 => 874620,
        62 => 882948,
        63 => 891007,
        64 => 898794,
        65 => 906308,
        66 => 913545,
        67 => 920505,
        68 => 927184,
        69 => 933580,
        70 => 939693,
        71 => 945519,
        72 => 951057,
        73 => 956305,
        74 => 961262,
        75 => 965926,
        76 => 970296,
        77 => 974370,
        78 => 978148,
        79 => 981627,
        80 => 984808,
        81 => 987688,
        82 => 990268,
        83 => 992546,
        84 => 994522,
        85 => 996195,
        86 => 997564,
        87 => 998630,
        88 => 999391,
        89 => 999848,
        90 => 1000000,
        _ => 0,
    }
}

/// The sine of `d` degrees as a sign and an absolute value, scaled by one
/// million.
fn sin_parts(d: u16) -> (r: (bool, u64))
    requires
        d < 360,
    ensures
        (if r.0 {
            -(r.1 as int)
        } else {
            r.1 as int
        }) == sin_scaled(d as int),
        r.1 <= 1000000,
{
    if d <= 90 {
        (false, sin_q_lookup(d))
    } else if d <= 180 {
        (false, sin_q_lookup(180 - d))
    } else if d <= 270 {
        (true, sin_q_lookup(d - 180))
    } else {
        (true, sin_q_lookup(360 - d))
    }
}

/// `ceil(sv * mag / 1000000)` saturated to the signed 16-bit range, where
/// `sv` is `-sv_abs` if `neg` and `sv_abs` otherwise.
fn apply_mag(neg: bool, sv_abs: u64, mag: u64) -> (r: i16)
    requires
        sv_abs <= 1000000,
    ensures
        r as int == clamp_i16(
            ceil_div(
                (if neg {
                    -(sv_abs as int)
                } else {
                    sv_abs as int
                }) * mag as int,
                1000000,
            ),
        ),
{
    proof {
        assert(sv_abs as int * mag as int <= 1000000int * 0xffff_ffff_ffff_ffffint)
            by (nonlinear_arith)
            requires
                sv_abs as int <= 1000000,
                mag as int <= 0xffff_ffff_ffff_ffffint,
        ;
        vstd::arithmetic::mul::lemma_mul_nonnegative(sv_abs as int, mag as int);
        assert((-(sv_abs as int)) * (mag as int) == -((sv_abs as int) * (mag as int)))
            by (nonlinear_arith);
    }
    let ghost sv: int = if neg {
        -(sv_abs as int)
    } else {
        sv_abs as int
    };
    let p: u128 = (sv_abs as u128) * (mag as u128);
    proof {
        assert(sv_abs as int * mag as int == p as int);
    }
    if !neg {
        let q: u128 = (p + 999999) / 1000000;
        proof {
            assert(ceil_div(sv * (mag as int), 1000000) == q as int);
        }
        if q > 32767 {
            32767
        } else {
            q as i16
        }
    } else {
        let q: u128 = p / 1000000;
        proof {
            if p == 0 {
                assert(ceil_div(sv * (mag as int), 1000000) == 0);
                assert(q == 0);
            } else {
                assert((sv * (mag as int)) < 0);
                assert(ceil_div(sv * (mag as int), 1000000) == -(q as int));
            }
        }
        if q >= 32768 {
            -32768
        } else {
            let v: i32 = -(q as i32);
            v as i16
        }
    }
}

/// A stick displacement: a pair of signed 16-bit components, derived from
/// an angle and a magnitude at parse time.
#[derive(Clone, Copy, PartialEq, Eq, Structural, Debug)]
pub struct Stick {
    pub x: i16,
    pub y: i16,
}

/// The displacement denoted by `angle` degrees at magnitude `mag`.
pub open spec fn stick_of(angle: u64, mag: u64) -> Stick {
    Stick { x: stick_x(angle, mag) as i16, y: stick_y(angle, mag) as i16 }
}

/// The position of the token at `j`, or the zero position when the segment
/// ends before `j`.
pub open spec fn pos_at(seg: Seq<TokenV>, j: int) -> (int, int) {
    if 0 <= j < seg.len() {
        (tok_line(seg[j]), tok_col(seg[j]))
    } else {
        (0, 0)
    }
}

/// Reading a stick bracket group from the token segment `seg`, starting at
/// `k` (just past the opening bracket). The group must be exactly a number
/// (the angle), a comma, a number (the magnitude) and the closing bracket:
/// then the vector and the index just past the closing bracket; any other
/// shape is the position for a "malformed stick information" diagnostic,
/// at the first token that breaks the shape (or the zero position when the
/// segment ends instead).
pub open spec fn stick_from(seg: Seq<TokenV>, k: int) -> Result<(Stick, int), (int, int)>
    recommends
        0 <= k,
{
    let len = seg.len() as int;
    if !(k < len && seg[k] is Number) {
        Err(pos_at(seg, k))
    } else if !(k + 1 < len && seg[k + 1] is Comma) {
        Err(pos_at(seg, k + 1))
    } else if !(k + 2 < len && seg[k + 2] is Number) {
        Err(pos_at(seg, k + 2))
    } else if !(k + 3 < len && seg[k + 3] is BracketClose) {
        Err(pos_at(seg, k + 3))
    } else {
        Ok((stick_of(tok_num_val(seg[k]), tok_num_val(seg[k + 2])), k + 4))
    }
}

/// Whether the executable error `r` reports a malformed stick group at the
/// position `f` in the script at `path`.
pub open spec fn stick_err_matches(r: TasError, f: (int, int), path: Seq<char>) -> bool {
    r matches TasError::Parse { l, c, e, p } && l as int == f.0 && c as int == f.1
        && e@ == "Malformed stick information."@ && p@ == path
}

impl Stick {
    /// The neutral displacement.
    pub fn new() -> (r: Self)
        ensures
            r == (Stick { x: 0i16, y: 0i16 }),
    {
        Stick { x: 0, y: 0 }
    }

    /// The displacement for `angle` degrees at magnitude `mag`.
    pub fn from_polar(angle: u64, mag: u64) -> (r: Self)
        ensures
            r == stick_of(angle, mag),
    {
        let d = (angle % 360) as u16;
        let (sn, sa) = sin_parts(d);
        let x = apply_mag(sn, sa, mag);
        let dc = (d + 90) % 360;
        let (cn, ca) = sin_parts(dc);
        let y = apply_mag(cn, ca, mag);
        Stick { x, y }
    }

    /// Read a stick bracket group from `seg` starting at `start`: exactly
    /// an angle, a comma, a magnitude and the closing bracket. Returns the
    /// vector and the index just past the closing bracket, or a
    /// `TasError::Parse` diagnostic at the first token that breaks the
    /// shape. The result is exactly what [`stick_from`] gives.
    pub fn get(seg: &[Token], start: usize, path: &str) -> (r: Result<(Stick, usize), TasError>)
        ensures
            match r {
                Ok(p) => stick_from(tokens_view(seg@), start as int) == Ok::<(Stick, int), (
                    int,
                    int,
                )>((p.0, p.1 as int)),
                Err(e) => stick_from(tokens_view(seg@), start as int) matches Err(f)
                    && stick_err_matches(e, f, path@),
            },
    {
        let len = seg.len();
        if !(start < len) {
            return Err(Stick::shape_fault(seg, start, path));
        }
        let a_val: u64 = match &seg[start] {
            Token::Number(v, _) => *v,
            _ => {
                return Err(Stick::shape_fault(seg, start, path));
            },
        };
        if !(start + 1 < len && matches!(&seg[start + 1], Token::Comma(_))) {
            return Err(Stick::shape_fault(seg, start + 1, path));
        }
        if !(start + 2 < len) {
            return Err(Stick::shape_fault(seg, start + 2, path));
        }
        let m_val: u64 = match &seg[start + 2] {
            Token::Number(v, _) => *v,
            _ => {
                return Err(Stick::shape_fault(seg, start + 2, path));
            },
        };
        if !(start + 3 < len && matches!(&seg[start + 3], Token::BracketClose(_))) {
            return Err(Stick::shape_fault(seg, start + 3, path));
        }
        Ok((Stick::from_polar(a_val, m_val), start + 4))
    }

    /// The "malformed stick information" diagnostic for the token at `j`,
    /// or at the zero position when the segment ends before `j`.
    fn shape_fault(seg: &[Token], j: usize, path: &str) -> (r: TasError)
        ensures
            ({
                let f = pos_at(tokens_view(seg@), j as int);
                stick_err_matches(r, f, path@)
            }),
    {
        let len = seg.len();
        if j < len {
            let (l, c) = match &seg[j] {
                Token::Number(_, p) => (p.line, p.col),
                Token::Operation(_, p) => (p.line, p.col),
                Token::BracketOpen(p) => (p.line, p.col),
                Token::BracketClose(p) => (p.line, p.col),
                Token::Key(_, p) => (p.line, p.col),
                Token::Comma(p) => (p.line, p.col),
                Token::Newline(p) => (p.line, p.col),
                Token::Whitespace(p) => (p.line, p.col),
            };
            TasError::Parse { l, c, e: "Malformed stick information.", p: path.to_owned() }
        } else {
            TasError::Parse { l: 0, c: 0, e: "Malformed stick information.", p: path.to_owned() }
        }
    }
}

} // verus!
