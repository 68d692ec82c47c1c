//! The frame parser: tokens to one frame descriptor per script line.
//!
//! The token stream is split on `Newline` tokens; each segment becomes one
//! [`Line`]. Within a segment, a leading number sets the frame delay (in
//! 60 Hz ticks), and each operation name dispatches on its text: `ON` and
//! `OFF` OR a key list into the `on` / `off` masks, `RAW` sets `off` to
//! `ALL` and `on` to the key list (an absolute-state operation: clear
//! everything, then assert exactly the given buttons), and `LSTICK` /
//! `RSTICK` read a stick group. The whole behaviour is defined by the
//! spec-level functions [`keys_from`], [`line_from`] and [`parse_lines`];
//! the executable functions return exactly what those give.

use vstd::prelude::*;

use crate::keys;
use crate::keys::key_value;
use crate::lex::{count_nl_toks, lex_spec};
use crate::stick::{stick_from, Stick};
use crate::token::{tokens_view, Token, TokenV};
use crate::TasError;

verus! {

/// One line of the script: a delay in 60 Hz ticks, the buttons the line
/// asserts and deasserts, and an optional new displacement for each stick
/// (`None` meaning "no change this frame").
#[derive(Clone, Copy, PartialEq, Eq, Debug)]
pub struct Line {
    pub delay: u64,
    pub on: u16,
    pub off: u16,
    pub lstick: Option<Stick>,
    pub rstick: Option<Stick>,
}

/// The default line: no delay, nothing asserted or deasserted, sticks
/// unchanged.
pub open spec fn line_new() -> Line {
    Line { delay: 0, on: keys::NONE, off: keys::NONE, lstick: None, rstick: None }
}

/// What kind of semantic rule a fault broke.
pub enum SemKind {
    UnknownOp,
    UnknownKey,
    BadStick,
}

/// A semantic fault: where it was found and which rule it broke.
pub struct SemFault {
    pub line: int,
    pub col: int,
    pub kind: SemKind,
}

/// The diagnostic message that belongs to each fault kind.
pub open spec fn sem_msg(k: SemKind) -> Seq<char> {
    match k {
        SemKind::UnknownOp => "Unknown operation."@,
        SemKind::UnknownKey => "Unknown key identifier."@,
        SemKind::BadStick => "Malformed stick information."@,
    }
}

/// Whether the executable error `r` reports exactly the fault `f` found in
/// the script at `path`.
pub open spec fn sem_err_matches(r: TasError, f: SemFault, path: Seq<char>) -> bool {
    r matches TasError::Parse { l, c, e, p } && l as int == f.line && c as int == f.col
        && e@ == sem_msg(f.kind) && p@ == path
}

/// Reading a key list from `seg` at `k` with the bits `acc` already
/// gathered: keys are ORed in until a closing bracket (consumed) or the end
/// of the segment; tokens of other kinds are passed over; an unknown key
/// identifier is a fault at its position.
pub open spec fn keys_from(seg: Seq<TokenV>, k: int, acc: u16) -> Result<(u16, int), (int, int)>
    decreases seg.len() - k,
    when 0 <= k <= seg.len()
{
    if k >= seg.len() {
        Ok((acc, k))
    } else {
        match seg[k] {
            TokenV::Key { name, line, col } => match key_value(name) {
                Some(v) => keys_from(seg, k + 1, acc | v),
                None => Err((line, col)),
            },
            TokenV::BracketClose { .. } => Ok((acc, k + 1)),
            _ => keys_from(seg, k + 1, acc),
        }
    }
}

proof fn lemma_keys_from_range(seg: Seq<TokenV>, k: int, acc: u16)
    requires
        0 <= k <= seg.len(),
    ensures
        keys_from(seg, k, acc) matches Ok(p) ==> k <= p.1 <= seg.len(),
    decreases seg.len() - k,
{
    if k < seg.len() {
        match seg[k] {
            TokenV::Key { name, .. } => match key_value(name) {
                Some(v) => lemma_keys_from_range(seg, k + 1, acc | v),
                None => {},
            },
            TokenV::BracketClose { .. } => {},
            _ => lemma_keys_from_range(seg, k + 1, acc),
        }
    }
}

/// The key values a list names: the value of each known key token from `k`
/// until the closing bracket or the segment's end.
pub open spec fn keys_list(seg: Seq<TokenV>, k: int) -> Seq<u16>
    decreases seg.len() - k,
    when 0 <= k <= seg.len()
{
    if k >= seg.len() {
        Seq::empty()
    } else {
        match seg[k] {
            TokenV::Key { name, .. } => match key_value(name) {
                Some(v) => seq![v] + keys_list(seg, k + 1),
                None => Seq::empty(),
            },
            TokenV::BracketClose { .. } => Seq::empty(),
            _ => keys_list(seg, k + 1),
        }
    }
}

/// The mask a key list resolves to is the OR-fold of the values it names.
pub proof fn lemma_keys_from_mask(seg: Seq<TokenV>, k: int, acc: u16)
    requires
        0 <= k <= seg.len(),
    ensures
        keys_from(seg, k, acc) matches Ok(p) ==> p.0 == (acc | crate::keys::keys_mask(
            keys_list(seg, k),
        )),
    decreases seg.len() - k,
{
    if k >= seg.len() {
        assert(acc | 0u16 == acc) by (bit_vector);
    } else {
        match seg[k] {
            TokenV::Key { name, .. } => match key_value(name) {
                Some(v) => {
                    lemma_keys_from_mask(seg, k + 1, acc | v);
                    crate::keys::lemma_keys_mask_cons(v, keys_list(seg, k + 1));
                    let m = crate::keys::keys_mask(keys_list(seg, k + 1));
                    assert((acc | v) | m == acc | (v | m)) by (bit_vector);
                },
                None => {},
            },
            TokenV::BracketClose { .. } => {
                assert(acc | 0u16 == acc) by (bit_vector);
            },
            _ => {
                lemma_keys_from_mask(seg, k + 1, acc);
            },
        }
    }
}

/// Key-list OR is commutative and idempotent, as the parser applies it: two
/// key lists that name the same set of buttons — whatever their order, and
/// however often a name repeats — resolve to the same mask.
pub proof fn lemma_key_lists_same_set(seg1: Seq<TokenV>, k1: int, seg2: Seq<TokenV>, k2: int)
    requires
        0 <= k1 <= seg1.len(),
        0 <= k2 <= seg2.len(),
        keys_from(seg1, k1, keys::NONE) is Ok,
        keys_from(seg2, k2, keys::NONE) is Ok,
        forall|v: u16| keys_list(seg1, k1).contains(v) <==> keys_list(seg2, k2).contains(v),
    ensures
        keys_from(seg1, k1, keys::NONE)->Ok_0.0 == keys_from(seg2, k2, keys::NONE)->Ok_0.0,
{
    lemma_keys_from_mask(seg1, k1, keys::NONE);
    lemma_keys_from_mask(seg2, k2, keys::NONE);
    crate::keys::lemma_keys_mask_set_eq(keys_list(seg1, k1), keys_list(seg2, k2));
    let m1 = crate::keys::keys_mask(keys_list(seg1, k1));
    assert(0u16 | m1 == m1) by (bit_vector);
}

/// The token index just past an operation token at `k`, skipping the
/// bracket-open token that follows it when there is one.
pub open spec fn after_op(seg: Seq<TokenV>, k: int) -> int {
    if k + 2 <= seg.len() {
        k + 2
    } else {
        seg.len() as int
    }
}

/// Interpreting the segment `seg` from `k` onward into the frame built so
/// far, `acc`: a number sets the delay, an operation dispatches on its
/// name, anything else is passed over. `ON` and `OFF` groups OR-combine
/// into the masks gathered so far, so repeated groups accumulate; `RAW`
/// is absolute and replaces them.
pub open spec fn line_from(seg: Seq<TokenV>, k: int, acc: Line) -> Result<Line, SemFault>
    decreases seg.len() - k,
    when 0 <= k <= seg.len()
    via line_from_dec
{
    if k >= seg.len() {
        Ok(acc)
    } else {
        match seg[k] {
            TokenV::Number { val, .. } => line_from(
                seg,
                k + 1,
                Line {
                    delay: val,
                    on: acc.on,
                    off: acc.off,
                    lstick: acc.lstick,
                    rstick: acc.rstick,
                },
            ),
            TokenV::Operation { name, line, col } => {
                let k2 = after_op(seg, k);
                if name == seq![79u8, 78u8] {  // ON
                    match keys_from(seg, k2, keys::NONE) {
                        Ok(p) => line_from(
                            seg,
                            p.1,
                            Line {
                                delay: acc.delay,
                                on: acc.on | p.0,
                                off: acc.off,
                                lstick: acc.lstick,
                                rstick: acc.rstick,
                            },
                        ),
                        Err(f) => Err(SemFault { line: f.0, col: f.1, kind: SemKind::UnknownKey }),
                    }
                } else if name == seq![79u8, 70u8, 70u8] {  // OFF
                    match keys_from(seg, k2, keys::NONE) {
                        Ok(p) => line_from(
                            seg,
                            p.1,
                            Line {
                                delay: acc.delay,
                                on: acc.on,
                                off: acc.off | p.0,
                                lstick: acc.lstick,
                                rstick: acc.rstick,
                            },
                        ),
                        Err(f) => Err(SemFault { line: f.0, col: f.1, kind: SemKind::UnknownKey }),
                    }
                } else if name == seq![76u8, 83u8, 84u8, 73u8, 67u8, 75u8] {  // LSTICK
                    match stick_from(seg, k2) {
                        Ok(p) => line_from(
                            seg,
                            p.1,
                            Line {
                                delay: acc.delay,
                                on: acc.on,
                                off: acc.off,
                                lstick: Some(p.0),
                                rstick: acc.rstick,
                            },
                        ),
                        Err(f) => Err(SemFault { line: f.0, col: f.1, kind: SemKind::BadStick }),
                    }
                } else if name == seq![82u8, 83u8, 84u8, 73u8, 67u8, 75u8] {  // RSTICK
                    match stick_from(seg, k2) {
                        Ok(p) => line_from(
                            seg,
                            p.1,
                            Line {
                                delay: acc.delay,
                                on: acc.on,
                                off: acc.off,
                                lstick: acc.lstick,
                                rstick: Some(p.0),
                            },
                        ),
                        Err(f) => Err(SemFault { line: f.0, col: f.1, kind: SemKind::BadStick }),
                    }
                } else if name == seq![82u8, 65u8, 87u8] {  // RAW
                    match keys_from(seg, k2, keys::NONE) {
                        Ok(p) => line_from(
                            seg,
                            p.1,
                            Line {
                                delay: acc.delay,
                                on: p.0,
                                off: keys::ALL,
                                lstick: acc.lstick,
                                rstick: acc.rstick,
                            },
                        ),
                        Err(f) => Err(SemFault { line: f.0, col: f.1, kind: SemKind::UnknownKey }),
                    }
                } else {
                    Err(SemFault { line, col, kind: SemKind::UnknownOp })
                }
            },
            _ => line_from(seg, k + 1, acc),
        }
    }
}

#[via_fn]
proof fn line_from_dec(seg: Seq<TokenV>, k: int, acc: Line) {
    if 0 <= k < seg.len() {
        let k2 = after_op(seg, k);
        lemma_keys_from_range(seg, k2, keys::NONE);
    }
}

/// The first index at or after `i` holding a `Newline` token, or the length
/// of the sequence.
pub open spec fn next_nl(ts: Seq<TokenV>, i: int) -> int
    decreases ts.len() - i,
    when 0 <= i <= ts.len()
{
    if i >= ts.len() {
        ts.len() as int
    } else if ts[i] is Newline {
        i
    } else {
        next_nl(ts, i + 1)
    }
}

proof fn lemma_next_nl(ts: Seq<TokenV>, i: int)
    requires
        0 <= i <= ts.len(),
    ensures
        i <= next_nl(ts, i) <= ts.len(),
        next_nl(ts, i) < ts.len() ==> ts[next_nl(ts, i)] is Newline,
        forall|m: int| i <= m < next_nl(ts, i) ==> !(ts[m] is Newline),
    decreases ts.len() - i,
{
    if i < ts.len() && !(ts[i] is Newline) {
        lemma_next_nl(ts, i + 1);
    }
}

/// Splitting the token stream on `Newline` tokens from `i` onward, one
/// parsed [`Line`] per segment — including a final empty segment after a
/// trailing line break, which parses to the default line.
#[verifier::opaque]
pub open spec fn parse_lines(ts: Seq<TokenV>, i: int) -> Result<Seq<Line>, SemFault>
    decreases ts.len() - i,
    when 0 <= i <= ts.len()
    via parse_lines_dec
{
    let j = next_nl(ts, i);
    match line_from(ts.subrange(i, j), 0, line_new()) {
        Err(f) => Err(f),
        Ok(l) => if j >= ts.len() {
            Ok(seq![l])
        } else {
            match parse_lines(ts, j + 1) {
                Ok(rest) => Ok(seq![l] + rest),
                Err(f) => Err(f),
            }
        },
    }
}

#[via_fn]
proof fn parse_lines_dec(ts: Seq<TokenV>, i: int) {
    if 0 <= i <= ts.len() {
        lemma_next_nl(ts, i);
    }
}

/// The frames of a whole token stream, or its first semantic fault.
pub open spec fn parse_spec(ts: Seq<TokenV>) -> Result<Seq<Line>, SemFault> {
    parse_lines(ts, 0)
}

/// Frames already parsed, followed by whatever the rest of the stream
/// gives.
pub open spec fn lines_combine(
    p: Seq<Line>,
    r: Result<Seq<Line>, SemFault>,
) -> Result<Seq<Line>, SemFault> {
    match r {
        Ok(ls) => Ok(p + ls),
        Err(f) => Err(f),
    }
}

fn is_op_on(n: &[u8]) -> (r: bool)
    ensures
        r == (n@ == seq![79u8, 78u8]),
{
    if n.len() == 2 && n[0] == 79 && n[1] == 78 {
        proof { assert(n@ =~= seq![79u8, 78u8]); }
        true
    } else {
        false
    }
}

fn is_op_off(n: &[u8]) -> (r: bool)
    ensures
        r == (n@ == seq![79u8, 70u8, 70u8]),
{
    if n.len() == 3 && n[0] == 79 && n[1] == 70 && n[2] == 70 {
        proof { assert(n@ =~= seq![79u8, 70u8, 70u8]); }
        true
    } else {
        false
    }
}

fn is_op_lstick(n: &[u8]) -> (r: bool)
    ensures
        r == (n@ == seq![76u8, 83u8, 84u8, 73u8, 67u8, 75u8]),
{
    if n.len() == 6 && n[0] == 76 && n[1] == 83 && n[2] == 84 && n[3] == 73 && n[4] == 67
        && n[5] == 75 {
        proof { assert(n@ =~= seq![76u8, 83u8, 84u8, 73u8, 67u8, 75u8]); }
        true
    } else {
        false
    }
}

fn is_op_rstick(n: &[u8]) -> (r: bool)
    ensures
        r == (n@ == seq![82u8, 83u8, 84u8, 73u8, 67u8, 75u8]),
{
    if n.len() == 6 && n[0] == 82 && n[1] == 83 && n[2] == 84 && n[3] == 73 && n[4] == 67
        && n[5] == 75 {
        proof { assert(n@ =~= seq![82u8, 83u8, 84u8, 73u8, 67u8, 75u8]); }
        true
    } else {
        false
    }
}

fn is_op_raw(n: &[u8]) -> (r: bool)
    ensures
        r == (n@ == seq![82u8, 65u8, 87u8]),
{
    if n.len() == 3 && n[0] == 82 && n[1] == 65 && n[2] == 87 {
        proof { assert(n@ =~= seq![82u8, 65u8, 87u8]); }
        true
    } else {
        false
    }
}

/// OR together the key list at `start` in `seg` until a closing bracket or
/// the segment's end, returning the mask and the index just past what was
/// consumed. An unknown key identifier is a `TasError::Parse` diagnostic.
/// The result is exactly what [`keys_from`] gives.
pub fn get_keys(seg: &[Token], start: usize, path: &str) -> (r: Result<(u16, usize), TasError>)
    requires
        start <= seg@.len(),
    ensures
        match r {
            Ok(p) => keys_from(tokens_view(seg@), start as int, keys::NONE) == Ok::<(u16, int), (
                int,
                int,
            )>((p.0, p.1 as int)),
            Err(e) => keys_from(tokens_view(seg@), start as int, keys::NONE) matches Err(f) && (
            e matches TasError::Parse {
                l,
                c,
                e: msg,
                p,
            } && l as int == f.0 && c as int == f.1 && msg@ == "Unknown key identifier."@ && p@
                == path@),
        },
{
    let ghost ts = tokens_view(seg@);
    let mut cur: u16 = keys::NONE;
    let mut k = start;
    while k < seg.len()
        invariant
            start <= k <= seg@.len(),
            ts == tokens_view(seg@),
            keys_from(ts, start as int, keys::NONE) == keys_from(ts, k as int, cur),
        decreases seg@.len() - k,
    {
        match &seg[k] {
            Token::Key(name, pos) => {
                match crate::keys::key2u16(name.as_slice()) {
                    Some(v) => {
                        cur = cur | v;
                        k = k + 1;
                    },
                    None => {
                        return Err(TasError::Parse {
                            l: pos.line,
                            c: pos.col,
                            e: "Unknown key identifier.",
                            p: path.to_owned(),
                        });
                    },
                }
            },
            Token::BracketClose(_) => {
                return Ok((cur, k + 1));
            },
            _ => {
                k = k + 1;
            },
        }
    }
    Ok((cur, k))
}

impl Line {
    /// The default line.
    pub fn new() -> (r: Self)
        ensures
            r == line_new(),
    {
        Line { delay: 0, on: keys::NONE, off: keys::NONE, lstick: None, rstick: None }
    }

    /// Interpret one line's token segment (the tokens between two line
    /// breaks, exclusive) into a frame, or report the first semantic fault
    /// as a `TasError::Parse` carrying the script's `path`. The result is
    /// exactly what [`line_from`] gives.
    #[verifier::rlimit(100)]
    #[verifier::spinoff_prover]
    pub fn get(seg: &[Token], path: &str) -> (r: Result<Line, TasError>)
        ensures
            match r {
                Ok(l) => line_from(tokens_view(seg@), 0, line_new()) == Ok::<Line, SemFault>(l),
                Err(e) => line_from(tokens_view(seg@), 0, line_new()) matches Err(f)
                    && sem_err_matches(e, f, path@),
            },
    {
        let ghost ts = tokens_view(seg@);
        let mut out = Line::new();
        let mut k: usize = 0;
        while k < seg.len()
            invariant
                k <= seg@.len(),
                ts == tokens_view(seg@),
                line_from(ts, 0, line_new()) == line_from(ts, k as int, out),
            decreases seg@.len() - k,
        {
            match &seg[k] {
                Token::Number(v, _) => {
                    out.delay = *v;
                    k = k + 1;
                },
                Token::Operation(name, pos) => {
                    let k2 = if seg.len() - k >= 2 {
                        k + 2
                    } else {
                        seg.len()
                    };
                    proof {
                        assert(k2 as int == after_op(ts, k as int));
                    }
                    if is_op_on(name.as_slice()) {
                        match get_keys(seg, k2, path) {
                            Ok(p) => {
                                out.on = out.on | p.0;
                                k = p.1;
                                proof {
                                    lemma_keys_from_range(ts, k2 as int, keys::NONE);
                                }
                            },
                            Err(e) => {
                                return Err(e);
                            },
                        }
                    } else if is_op_off(name.as_slice()) {
                        match get_keys(seg, k2, path) {
                            Ok(p) => {
                                out.off = out.off | p.0;
                                k = p.1;
                                proof {
                                    lemma_keys_from_range(ts, k2 as int, keys::NONE);
                                }
                            },
                            Err(e) => {
                                return Err(e);
                            },
                        }
                    } else if is_op_lstick(name.as_slice()) {
                        match Stick::get(seg, k2, path) {
                            Ok(p) => {
                                out.lstick = Some(p.0);
                                k = p.1;
                            },
                            Err(e) => {
                                return Err(e);
                            },
                        }
                    } else if is_op_rstick(name.as_slice()) {
                        match Stick::get(seg, k2, path) {
                            Ok(p) => {
                                out.rstick = Some(p.0);
                                k = p.1;
                            },
                            Err(e) => {
                                return Err(e);
                            },
                        }
                    } else if is_op_raw(name.as_slice()) {
                        match get_keys(seg, k2, path) {
                            Ok(p) => {
                                out.on = p.0;
                                out.off = keys::ALL;
                                k = p.1;
                                proof {
                                    lemma_keys_from_range(ts, k2 as int, keys::NONE);
                                }
                            },
                            Err(e) => {
                                return Err(e);
                            },
                        }
                    } else {
                        return Err(TasError::Parse {
                            l: pos.line,
                            c: pos.col,
                            e: "Unknown operation.",
                            p: path.to_owned(),
                        });
                    }
                },
                _ => {
                    k = k + 1;
                },
            }
        }
        Ok(out)
    }
}

/// The parsed script: one frame per script line, in script order.
#[derive(Debug)]
pub struct Tas {
    pub lines: Vec<Line>,
}

impl Tas {
    /// Group the token stream into per-line segments, split on line-break
    /// tokens, and interpret each segment into a frame. The frames are
    /// exactly what [`parse_spec`] gives, or its first fault is reported as
    /// a `TasError::Parse` carrying the script's `path`.
    #[verifier::rlimit(100)]
    #[verifier::spinoff_prover]
    pub fn parse_tas(prog: Vec<Token>, path: &str) -> (r: Result<Tas, TasError>)
        requires
            prog@.len() < usize::MAX,
        ensures
            match r {
                Ok(t) => parse_spec(tokens_view(prog@)) == Ok::<Seq<Line>, SemFault>(t.lines@),
                Err(e) => parse_spec(tokens_view(prog@)) matches Err(f) && sem_err_matches(
                    e,
                    f,
                    path@,
                ),
            },
    {
        let ghost ts = tokens_view(prog@);
        let toks = prog.as_slice();
        let n = toks.len();
        let mut lines: Vec<Line> = Vec::new();
        let mut i: usize = 0;
        proof {
            assert(lines_combine(lines@, parse_lines(ts, 0)) == parse_lines(ts, 0)) by {
                match parse_lines(ts, 0) {
                    Ok(ls) => {
                        assert(lines@ + ls =~= ls);
                    },
                    Err(_) => {},
                }
            }
        }
        while i <= n
            invariant
                n < usize::MAX,
                n == ts.len(),
                ts == tokens_view(toks@),
                toks@ == prog@,
                i <= n + 1,
                i <= n ==> parse_spec(ts) == lines_combine(lines@, parse_lines(ts, i as int)),
                i == n + 1 ==> parse_spec(ts) == Ok::<Seq<Line>, SemFault>(lines@),
            decreases n + 1 - i,
        {
            let mut j = i;
            while j < n && !(matches!(toks[j], Token::Newline(_)))
                invariant
                    i <= j <= n,
                    n == ts.len(),
                    ts == tokens_view(toks@),
                    next_nl(ts, i as int) == next_nl(ts, j as int),
                decreases n - j,
            {
                j = j + 1;
            }
            proof {
                assert(next_nl(ts, j as int) == j as int);
                lemma_next_nl(ts, i as int);
            }
            let seg = vstd::slice::slice_subrange(toks, i, j);
            proof {
                assert(tokens_view(seg@) =~= ts.subrange(i as int, j as int));
            }
            match Line::get(seg, path) {
                Ok(l) => {
                    proof {
                        lemma_parse_lines_step(ts, i as int, j as int, l);
                        if j < n {
                            lemma_lines_combine_assoc(lines@, l, parse_lines(ts, j + 1));
                        } else {
                            assert(lines@ + seq![l] =~= lines@.push(l));
                        }
                    }
                    lines.push(l);
                },
                Err(e) => {
                    proof {
                        lemma_parse_lines_err(ts, i as int, j as int);
                    }
                    return Err(e);
                },
            }
            if j == n {
                i = n + 1;
            } else {
                i = j + 1;
            }
        }
        Ok(Tas { lines })
    }
}

proof fn lemma_parse_lines_step(ts: Seq<TokenV>, i: int, j: int, l: Line)
    requires
        0 <= i <= j <= ts.len(),
        next_nl(ts, i) == j,
        line_from(ts.subrange(i, j), 0, line_new()) == Ok::<Line, SemFault>(l),
    ensures
        j < ts.len() ==> parse_lines(ts, i) == lines_combine(seq![l], parse_lines(ts, j + 1)),
        j == ts.len() ==> parse_lines(ts, i) == Ok::<Seq<Line>, SemFault>(seq![l]),
{
    reveal(parse_lines);
}

proof fn lemma_parse_lines_err(ts: Seq<TokenV>, i: int, j: int)
    requires
        0 <= i <= j <= ts.len(),
        next_nl(ts, i) == j,
        line_from(ts.subrange(i, j), 0, line_new()) is Err,
    ensures
        parse_lines(ts, i) == Err::<Seq<Line>, SemFault>(
            line_from(ts.subrange(i, j), 0, line_new())->Err_0,
        ),
{
    reveal(parse_lines);
}

proof fn lemma_lines_combine_assoc(p: Seq<Line>, l: Line, r: Result<Seq<Line>, SemFault>)
    ensures
        lines_combine(p, lines_combine(seq![l], r)) == lines_combine(p.push(l), r),
{
    match r {
        Ok(ls) => {
            assert(p + (seq![l] + ls) =~= p.push(l) + ls);
        },
        Err(_) => {},
    }
}

/// One frame per script line: a stream that parses successfully yields
/// exactly one more frame than it has `Newline` tokens.
pub proof fn lemma_parse_count(ts: Seq<TokenV>, i: int)
    requires
        0 <= i <= ts.len(),
        parse_lines(ts, i) is Ok,
    ensures
        parse_lines(ts, i)->Ok_0.len() == nl_from(ts, i) + 1,
    decreases ts.len() - i,
{
    reveal(parse_lines);
    let j = next_nl(ts, i);
    lemma_next_nl(ts, i);
    lemma_nl_skip(ts, i, j);
    if j < ts.len() {
        lemma_parse_count(ts, j + 1);
        let l = line_from(ts.subrange(i, j), 0, line_new())->Ok_0;
        let rest = parse_lines(ts, j + 1)->Ok_0;
        assert((seq![l] + rest).len() == 1 + rest.len());
    }
}

/// How many `Newline` tokens `ts[i..]` holds.
pub open spec fn nl_from(ts: Seq<TokenV>, i: int) -> nat
    decreases ts.len() - i,
    when 0 <= i <= ts.len()
{
    if i >= ts.len() {
        0
    } else {
        (if ts[i] is Newline {
            1nat
        } else {
            0nat
        }) + nl_from(ts, i + 1)
    }
}

proof fn lemma_nl_skip(ts: Seq<TokenV>, i: int, j: int)
    requires
        0 <= i <= j <= ts.len(),
        forall|m: int| i <= m < j ==> !(ts[m] is Newline),
    ensures
        nl_from(ts, i) == nl_from(ts, j),
    decreases j - i,
{
    if i < j {
        lemma_nl_skip(ts, i + 1, j);
    }
}

proof fn lemma_nl_from_toks(ts: Seq<TokenV>, i: int)
    requires
        0 <= i <= ts.len(),
    ensures
        nl_from(ts, i) == count_nl_toks(ts.skip(i)),
    decreases ts.len() - i,
{
    if i < ts.len() {
        lemma_nl_from_toks(ts, i + 1);
        assert(ts.skip(i).drop_first() =~= ts.skip(i + 1));
        assert(ts.skip(i)[0] == ts[i]);
    } else {
        assert(ts.skip(i) =~= Seq::<TokenV>::empty());
    }
}

/// One frame per script line, end to end: a script text that lexes and
/// parses successfully yields exactly one more frame than the text has
/// line-break bytes.
pub proof fn lemma_one_frame_per_line(s: Seq<u8>, ts: Seq<TokenV>, ls: Seq<Line>)
    requires
        lex_spec(s) == Ok::<Seq<TokenV>, crate::lex::LexFault>(ts),
        parse_spec(ts) == Ok::<Seq<Line>, SemFault>(ls),
    ensures
        ls.len() == crate::lex::count_nl_bytes(s, 0) + 1,
{
    crate::lex::lemma_lex_newline_count(s);
    lemma_parse_count(ts, 0);
    lemma_nl_from_toks(ts, 0);
    assert(ts.skip(0) =~= ts);
}

} // verus!
