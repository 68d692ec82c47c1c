//! The lexer: script text to positioned tokens.
//!
//! The scan is a single pass that validates structure as it goes: each byte
//! is judged against the kind of the previously emitted token ([`Prev`]) and
//! a single "inside brackets" flag. The whole behaviour is defined by the
//! spec-level state machine [`lex_from`]; the executable [`lex`] returns
//! exactly what that machine computes, token for token, or the first fault.
//!
//! Rules enforced here:
//! - `+` is legal only as the very first byte of the script;
//! - a line break is illegal inside brackets, and every line except the
//!   final one must begin with a digit — the first line included, after
//!   the optional leading `+`;
//! - `{` only immediately after an operation name, outside brackets;
//! - `}` only inside brackets, after a key or a number;
//! - `,` only after a key, or after a number inside brackets;
//! - a digit run is a frame number at the start of a line, a stick
//!   parameter after `{` or `,` inside brackets, and a fault elsewhere;
//! - a key identifier (uppercase and `_`) is legal after `{` or `,`; an
//!   operation name (uppercase) after whitespace outside brackets;
//! - any other byte is passed over without a token;
//! - the script may not end inside brackets.

use vstd::prelude::*;

use crate::token::{
    digits_val, is_digit, is_key_char, is_key_lead, is_op_lead, is_upper, lemma_digits_val_mono,
    lemma_run_len_all, lemma_run_len_le, run_len, tokens_view, Pos, Prev, Token, TokenV,
};
use crate::TasError;

verus! {

/// What kind of lexical rule a fault broke.
pub enum LexKind {
    BadPlus,
    NlInBracket,
    NoFrameNumber,
    BadOpen,
    BadClose,
    BadComma,
    NumberStart,
    StickNumberPos,
    KeyPos,
    OpInBracket,
    OpNoSpace,
    NumberTooBig,
    Unclosed,
}

/// A lexical fault: where it was found and which rule it broke.
pub struct LexFault {
    pub line: int,
    pub col: int,
    pub kind: LexKind,
}

/// The diagnostic message that belongs to each fault kind.
pub open spec fn lex_msg(k: LexKind) -> Seq<char> {
    match k {
        LexKind::BadPlus => "`+` can only appear at the start of the script"@,
        LexKind::NlInBracket => "Newlines cannot appear in brackets."@,
        LexKind::NoFrameNumber => "A frame number must appear at the start of each line."@,
        LexKind::BadOpen => "Unexpected opening bracket."@,
        LexKind::BadClose => "Unexpected closing bracket."@,
        LexKind::BadComma => "Commas can only appear inside brackets."@,
        LexKind::NumberStart => "Frame numbers can only appear at the start of a line."@,
        LexKind::StickNumberPos => "Expected one of `{` or `,` before stick parameter."@,
        LexKind::KeyPos => "Expected one of `{` or `,` before key identifier."@,
        LexKind::OpInBracket => "Operations cannot appear inside brackets"@,
        LexKind::OpNoSpace => "Expected whitespace before operation."@,
        LexKind::NumberTooBig => "Number does not fit in 64 bits."@,
        LexKind::Unclosed => "Script ends inside brackets."@,
    }
}

/// Whether the first line of the script begins with a digit, looking past
/// an optional leading `+`. An empty script has no line to judge.
pub open spec fn first_line_digit(s: Seq<u8>) -> bool {
    if s.len() == 0 {
        true
    } else if s[0] == 43 {
        s.len() >= 2 && is_digit(s[1])
    } else {
        is_digit(s[0])
    }
}

/// Prepend a token to the result of lexing the rest of the input.
pub open spec fn cons_tok(
    t: TokenV,
    r: Result<Seq<TokenV>, LexFault>,
) -> Result<Seq<TokenV>, LexFault> {
    match r {
        Ok(ts) => Ok(seq![t] + ts),
        Err(f) => Err(f),
    }
}

/// The class of bytes that continue a digit run.
pub open spec fn digit_cls() -> spec_fn(u8) -> bool {
    |c: u8| is_digit(c)
}

/// The class of bytes that continue a key identifier.
pub open spec fn key_char_cls() -> spec_fn(u8) -> bool {
    |c: u8| is_key_char(c)
}

/// The class of bytes that continue an operation name.
pub open spec fn upper_cls() -> spec_fn(u8) -> bool {
    |c: u8| is_upper(c)
}

/// The lexer as a state machine: the tokens of `s[i..]`, scanned at the
/// given line and column, inside brackets iff `br`, with `prev` the kind of
/// the last token emitted — or the first fault.
pub open spec fn lex_from(
    s: Seq<u8>,
    i: int,
    line: int,
    col: int,
    br: bool,
    prev: Prev,
) -> Result<Seq<TokenV>, LexFault>
    decreases s.len() - i,
    when 0 <= i <= s.len()
    via lex_from_dec
{
    if i >= s.len() {
        if br {
            Err(LexFault { line, col, kind: LexKind::Unclosed })
        } else {
            Ok(Seq::empty())
        }
    } else {
        let c = s[i];
        if c == 43 {
            if line != 1 || col != 0 {
                Err(LexFault { line, col, kind: LexKind::BadPlus })
            } else {
                lex_from(s, i + 1, line, col + 1, br, prev)
            }
        } else if c == 32 {
            cons_tok(
                TokenV::Whitespace { line, col },
                lex_from(s, i + 1, line, col + 1, br, Prev::Space),
            )
        } else if c == 10 {
            if br {
                Err(LexFault { line, col, kind: LexKind::NlInBracket })
            } else if (i + 1 < s.len() && !is_digit(s[i + 1])) || (line == 1
                && !first_line_digit(s)) {
                Err(LexFault { line, col, kind: LexKind::NoFrameNumber })
            } else {
                cons_tok(
                    TokenV::Newline { line, col },
                    lex_from(s, i + 1, line + 1, 0, br, Prev::Newline),
                )
            }
        } else if c == 123 {
            if br || prev != Prev::Operation {
                Err(LexFault { line, col, kind: LexKind::BadOpen })
            } else {
                cons_tok(
                    TokenV::BracketOpen { line, col },
                    lex_from(s, i + 1, line, col + 1, true, Prev::Open),
                )
            }
        } else if c == 125 {
            if !br || !(prev == Prev::Key || prev == Prev::Number) {
                Err(LexFault { line, col, kind: LexKind::BadClose })
            } else {
                cons_tok(
                    TokenV::BracketClose { line, col },
                    lex_from(s, i + 1, line, col + 1, false, Prev::Close),
                )
            }
        } else if c == 44 {
            if !(prev == Prev::Key || (prev == Prev::Number && br)) {
                Err(LexFault { line, col, kind: LexKind::BadComma })
            } else {
                cons_tok(
                    TokenV::Comma { line, col },
                    lex_from(s, i + 1, line, col + 1, br, Prev::Comma),
                )
            }
        } else if is_digit(c) {
            let ctx_ok = if br {
                prev == Prev::Open || prev == Prev::Comma
            } else {
                prev == Prev::Newline || prev == Prev::Start
            };
            if !ctx_ok {
                if br {
                    Err(LexFault { line, col, kind: LexKind::StickNumberPos })
                } else {
                    Err(LexFault { line, col, kind: LexKind::NumberStart })
                }
            } else {
                let j = i + 1 + run_len(s, i + 1, digit_cls());
                let v = digits_val(s, i, j);
                if v > u64::MAX {
                    Err(LexFault { line, col, kind: LexKind::NumberTooBig })
                } else {
                    cons_tok(
                        TokenV::Number { val: v as u64, line, col },
                        lex_from(s, j, line, col + (j - i), br, Prev::Number),
                    )
                }
            }
        } else if is_key_lead(c) && (br || !is_op_lead(c)) {
            if prev == Prev::Open || prev == Prev::Comma {
                let j = i + 1 + run_len(s, i + 1, key_char_cls());
                cons_tok(
                    TokenV::Key { name: s.subrange(i, j), line, col },
                    lex_from(s, j, line, col + (j - i), br, Prev::Key),
                )
            } else {
                Err(LexFault { line, col, kind: LexKind::KeyPos })
            }
        } else if is_op_lead(c) {
            if br {
                Err(LexFault { line, col, kind: LexKind::OpInBracket })
            } else if prev == Prev::Space {
                let j = i + 1 + run_len(s, i + 1, upper_cls());
                cons_tok(
                    TokenV::Operation { name: s.subrange(i, j), line, col },
                    lex_from(s, j, line, col + (j - i), br, Prev::Operation),
                )
            } else {
                Err(LexFault { line, col, kind: LexKind::OpNoSpace })
            }
        } else {
            lex_from(s, i + 1, line, col + 1, br, prev)
        }
    }
}

#[via_fn]
proof fn lex_from_dec(s: Seq<u8>, i: int, line: int, col: int, br: bool, prev: Prev) {
    if 0 <= i < s.len() {
        lemma_run_len_le(s, i + 1, digit_cls());
        lemma_run_len_le(s, i + 1, key_char_cls());
        lemma_run_len_le(s, i + 1, upper_cls());
    }
}

/// The tokens of a whole script, or its first lexical fault.
pub open spec fn lex_spec(s: Seq<u8>) -> Result<Seq<TokenV>, LexFault> {
    lex_from(s, 0, 1, 0, false, Prev::Start)
}

/// Tokens already emitted, followed by whatever the rest of the scan gives.
pub open spec fn lex_combine(
    p: Seq<TokenV>,
    r: Result<Seq<TokenV>, LexFault>,
) -> Result<Seq<TokenV>, LexFault> {
    match r {
        Ok(ts) => Ok(p + ts),
        Err(f) => Err(f),
    }
}

/// Whether the executable error `r` reports exactly the fault `f` found in
/// the script at `path`.
pub open spec fn lex_err_matches(r: TasError, f: LexFault, path: Seq<char>) -> bool {
    r matches TasError::Syntax { l, c, e, p } && l as int == f.line && c as int == f.col
        && e@ == lex_msg(f.kind) && p@ == path
}

proof fn lemma_combine_cons(p: Seq<TokenV>, t: TokenV, r: Result<Seq<TokenV>, LexFault>)
    ensures
        lex_combine(p, cons_tok(t, r)) == lex_combine(p.push(t), r),
{
    match r {
        Ok(ts) => {
            assert(p + (seq![t] + ts) =~= p.push(t) + ts);
        },
        Err(_) => {},
    }
}

proof fn lemma_tokens_view_push(ts: Seq<Token>, t: Token)
    ensures
        tokens_view(ts.push(t)) == tokens_view(ts).push(t@),
{
    assert(tokens_view(ts.push(t)) =~= tokens_view(ts).push(t@));
}

fn byte_is_digit(c: u8) -> (r: bool)
    ensures
        r == is_digit(c),
{
    48 <= c && c <= 57
}

fn byte_is_key_char(c: u8) -> (r: bool)
    ensures
        r == is_key_char(c),
{
    (65 <= c && c <= 90) || c == 95
}

fn byte_is_upper(c: u8) -> (r: bool)
    ensures
        r == is_upper(c),
{
    65 <= c && c <= 90
}

fn byte_is_key_lead(c: u8) -> (r: bool)
    ensures
        r == is_key_lead(c),
{
    c == 65 || c == 66 || c == 68 || c == 76 || c == 77 || c == 78 || c == 80 || c == 82
        || c == 88 || c == 89 || c == 90
}

fn byte_is_op_lead(c: u8) -> (r: bool)
    ensures
        r == is_op_lead(c),
{
    c == 76 || c == 79 || c == 82
}

/// Turn the script text into tokens, or report the first lexical fault as a
/// `TasError::Syntax` carrying the script's `path`. The result is exactly
/// what the spec-level scan [`lex_spec`] gives.
pub fn lex(input: &[u8], path: &str) -> (r: Result<Vec<Token>, TasError>)
    requires
        input@.len() < usize::MAX,
    ensures
        match r {
            Ok(ts) => lex_spec(input@) == Ok::<Seq<TokenV>, LexFault>(tokens_view(ts@)),
            Err(e) => lex_spec(input@) matches Err(f) && lex_err_matches(e, f, path@),
        },
{
    let n = input.len();
    let first_ok = if n == 0 {
        true
    } else if input[0] == 43 {
        n >= 2 && byte_is_digit(input[1])
    } else {
        byte_is_digit(input[0])
    };
    let mut out: Vec<Token> = Vec::new();
    let mut i: usize = 0;
    let mut line: usize = 1;
    let mut col: usize = 0;
    let mut br = false;
    let mut prev = Prev::Start;
    while i < n
        invariant
            n == input@.len(),
            n < usize::MAX,
            i <= n,
            1 <= line <= i + 1,
            col <= i,
            first_ok == first_line_digit(input@),
            lex_spec(input@) == lex_combine(
                tokens_view(out@),
                lex_from(input@, i as int, line as int, col as int, br, prev),
            ),
        decreases n - i,
    {
        let ghost prefix = tokens_view(out@);
        let ghost rest0 = lex_from(input@, i as int, line as int, col as int, br, prev);
        let c = input[i];
        if c == 43 {
            if line != 1 || col != 0 {
                return Err(TasError::Syntax {
                    l: line,
                    c: col,
                    e: "`+` can only appear at the start of the script",
                    p: path.to_owned(),
                });
            }
            i = i + 1;
            col = col + 1;
        } else if c == 32 {
            let t = Token::Whitespace(Pos { line, col });
            proof {
                lemma_combine_cons(prefix, t@, lex_from(input@, i + 1, line as int, col + 1, br, Prev::Space));
                lemma_tokens_view_push(out@, t);
            }
            out.push(t);
            i = i + 1;
            col = col + 1;
            prev = Prev::Space;
        } else if c == 10 {
            if br {
                return Err(TasError::Syntax {
                    l: line,
                    c: col,
                    e: "Newlines cannot appear in brackets.",
                    p: path.to_owned(),
                });
            }
            if (i + 1 < n && !byte_is_digit(input[i + 1])) || (line == 1 && !first_ok) {
                return Err(TasError::Syntax {
                    l: line,
                    c: col,
                    e: "A frame number must appear at the start of each line.",
                    p: path.to_owned(),
                });
            }
            let t = Token::Newline(Pos { line, col });
            proof {
                lemma_combine_cons(prefix, t@, lex_from(input@, i + 1, line + 1, 0, br, Prev::Newline));
                lemma_tokens_view_push(out@, t);
            }
            out.push(t);
            i = i + 1;
            line = line + 1;
            col = 0;
            prev = Prev::Newline;
        } else if c == 123 {
            if br || !(matches!(prev, Prev::Operation)) {
                return Err(TasError::Syntax {
                    l: line,
                    c: col,
                    e: "Unexpected opening bracket.",
                    p: path.to_owned(),
                });
            }
            let t = Token::BracketOpen(Pos { line, col });
            proof {
                lemma_combine_cons(prefix, t@, lex_from(input@, i + 1, line as int, col + 1, true, Prev::Open));
                lemma_tokens_view_push(out@, t);
            }
            out.push(t);
            i = i + 1;
            col = col + 1;
            br = true;
            prev = Prev::Open;
        } else if c == 125 {
            if !br || !(matches!(prev, Prev::Key) || matches!(prev, Prev::Number)) {
                return Err(TasError::Syntax {
                    l: line,
                    c: col,
                    e: "Unexpected closing bracket.",
                    p: path.to_owned(),
                });
            }
            let t = Token::BracketClose(Pos { line, col });
            proof {
                lemma_combine_cons(prefix, t@, lex_from(input@, i + 1, line as int, col + 1, false, Prev::Close));
                lemma_tokens_view_push(out@, t);
            }
            out.push(t);
            i = i + 1;
            col = col + 1;
            br = false;
            prev = Prev::Close;
        } else if c == 44 {
            if !(matches!(prev, Prev::Key) || (matches!(prev, Prev::Number) && br)) {
                return Err(TasError::Syntax {
                    l: line,
                    c: col,
                    e: "Commas can only appear inside brackets.",
                    p: path.to_owned(),
                });
            }
            let t = Token::Comma(Pos { line, col });
            proof {
                lemma_combine_cons(prefix, t@, lex_from(input@, i + 1, line as int, col + 1, br, Prev::Comma));
                lemma_tokens_view_push(out@, t);
            }
            out.push(t);
            i = i + 1;
            col = col + 1;
            prev = Prev::Comma;
        } else if byte_is_digit(c) {
            let ctx_ok = if br {
                matches!(prev, Prev::Open) || matches!(prev, Prev::Comma)
            } else {
                matches!(prev, Prev::Newline) || matches!(prev, Prev::Start)
            };
            if !ctx_ok {
                if br {
                    return Err(TasError::Syntax {
                        l: line,
                        c: col,
                        e: "Expected one of `{` or `,` before stick parameter.",
                        p: path.to_owned(),
                    });
                } else {
                    return Err(TasError::Syntax {
                        l: line,
                        c: col,
                        e: "Frame numbers can only appear at the start of a line.",
                        p: path.to_owned(),
                    });
                }
            }
            let mut j = i + 1;
            let mut val: u64 = (c - 48) as u64;
            let mut over = false;
            proof {
                assert(digit_cls()(input@[i as int]) == is_digit(input@[i as int]));
                assert(digits_val(input@, i as int, i as int) == 0);
                assert(digits_val(input@, i as int, i + 1) == val);
            }
            while j < n && byte_is_digit(input[j])
                invariant
                    n == input@.len(),
                    i < n,
                    i + 1 <= j <= n,
                    is_digit(input@[i as int]),
                    forall|m: int| i < m < j ==> is_digit(input@[m]),
                    run_len(input@, i + 1, digit_cls()) == (j - i - 1) + run_len(
                        input@,
                        j as int,
                        digit_cls(),
                    ),
                    !over ==> val == digits_val(input@, i as int, j as int) && digits_val(
                        input@,
                        i as int,
                        j as int,
                    ) <= u64::MAX,
                    over ==> digits_val(input@, i as int, j as int) > u64::MAX,
                decreases n - j,
            {
                let d = input[j] - 48;
                proof {
                    assert(digit_cls()(input@[j as int]) == is_digit(input@[j as int]));
                    assert(run_len(input@, j as int, digit_cls()) == 1 + run_len(
                        input@,
                        j + 1,
                        digit_cls(),
                    ));
                    assert(digits_val(input@, i as int, j + 1) == digits_val(
                        input@,
                        i as int,
                        j as int,
                    ) * 10 + (input@[j as int] - 48));
                    if over {
                        lemma_digits_val_mono(input@, i as int, j + 1);
                    }
                }
                if over {
                } else if val > (u64::MAX - (d as u64)) / 10 {
                    proof {
                        vstd::arithmetic::div_mod::lemma_fundamental_div_mod(
                            (u64::MAX - d) as int,
                            10,
                        );
                    }
                    over = true;
                } else {
                    proof {
                        vstd::arithmetic::div_mod::lemma_fundamental_div_mod(
                            (u64::MAX - d) as int,
                            10,
                        );
                    }
                    val = val * 10 + (d as u64);
                }
                j = j + 1;
            }
            proof {
                assert(run_len(input@, j as int, digit_cls()) == 0);
                assert(j == i + 1 + run_len(input@, i + 1, digit_cls()));
            }
            if over {
                return Err(TasError::Syntax {
                    l: line,
                    c: col,
                    e: "Number does not fit in 64 bits.",
                    p: path.to_owned(),
                });
            }
            let t = Token::Number(val, Pos { line, col });
            proof {
                lemma_combine_cons(
                    prefix,
                    t@,
                    lex_from(input@, j as int, line as int, col + (j - i), br, Prev::Number),
                );
                lemma_tokens_view_push(out@, t);
            }
            out.push(t);
            col = col + (j - i);
            i = j;
            prev = Prev::Number;
        } else if byte_is_key_lead(c) && (br || !byte_is_op_lead(c)) {
            if !(matches!(prev, Prev::Open) || matches!(prev, Prev::Comma)) {
                return Err(TasError::Syntax {
                    l: line,
                    c: col,
                    e: "Expected one of `{` or `,` before key identifier.",
                    p: path.to_owned(),
                });
            }
            let mut name: Vec<u8> = Vec::new();
            name.push(c);
            proof {
                assert(name@ =~= input@.subrange(i as int, i + 1));
            }
            let mut j = i + 1;
            while j < n && byte_is_key_char(input[j])
                invariant
                    n == input@.len(),
                    i < n,
                    i + 1 <= j <= n,
                    name@ == input@.subrange(i as int, j as int),
                    run_len(input@, i + 1, key_char_cls()) == (j - i - 1) + run_len(
                        input@,
                        j as int,
                        key_char_cls(),
                    ),
                decreases n - j,
            {
                proof {
                    assert(key_char_cls()(input@[j as int]) == is_key_char(input@[j as int]));
                    assert(run_len(input@, j as int, key_char_cls()) == 1 + run_len(
                        input@,
                        j + 1,
                        key_char_cls(),
                    ));
                    assert(input@.subrange(i as int, j + 1) =~= input@.subrange(
                        i as int,
                        j as int,
                    ).push(input@[j as int]));
                }
                name.push(input[j]);
                j = j + 1;
            }
            proof {
                assert(run_len(input@, j as int, key_char_cls()) == 0);
                assert(j == i + 1 + run_len(input@, i + 1, key_char_cls()));
            }
            let t = Token::Key(name, Pos { line, col });
            proof {
                lemma_combine_cons(
                    prefix,
                    t@,
                    lex_from(input@, j as int, line as int, col + (j - i), br, Prev::Key),
                );
                lemma_tokens_view_push(out@, t);
            }
            out.push(t);
            col = col + (j - i);
            i = j;
            prev = Prev::Key;
        } else if byte_is_op_lead(c) {
            if br {
                return Err(TasError::Syntax {
                    l: line,
                    c: col,
                    e: "Operations cannot appear inside brackets",
                    p: path.to_owned(),
                });
            }
            if !(matches!(prev, Prev::Space)) {
                return Err(TasError::Syntax {
                    l: line,
                    c: col,
                    e: "Expected whitespace before operation.",
                    p: path.to_owned(),
                });
            }
            let mut name: Vec<u8> = Vec::new();
            name.push(c);
            proof {
                assert(name@ =~= input@.subrange(i as int, i + 1));
            }
            let mut j = i + 1;
            while j < n && byte_is_upper(input[j])
                invariant
                    n == input@.len(),
                    i < n,
                    i + 1 <= j <= n,
                    name@ == input@.subrange(i as int, j as int),
                    run_len(input@, i + 1, upper_cls()) == (j - i - 1) + run_len(
                        input@,
                        j as int,
                        upper_cls(),
                    ),
                decreases n - j,
            {
                proof {
                    assert(upper_cls()(input@[j as int]) == is_upper(input@[j as int]));
                    assert(run_len(input@, j as int, upper_cls()) == 1 + run_len(
                        input@,
                        j + 1,
                        upper_cls(),
                    ));
                    assert(input@.subrange(i as int, j + 1) =~= input@.subrange(
                        i as int,
                        j as int,
                    ).push(input@[j as int]));
                }
                name.push(input[j]);
                j = j + 1;
            }
            proof {
                assert(run_len(input@, j as int, upper_cls()) == 0);
                assert(j == i + 1 + run_len(input@, i + 1, upper_cls()));
            }
            let t = Token::Operation(name, Pos { line, col });
            proof {
                lemma_combine_cons(
                    prefix,
                    t@,
                    lex_from(input@, j as int, line as int, col + (j - i), false, Prev::Operation),
                );
                lemma_tokens_view_push(out@, t);
            }
            out.push(t);
            col = col + (j - i);
            i = j;
            prev = Prev::Operation;
        } else {
            i = i + 1;
            col = col + 1;
        }
    }
    if br {
        return Err(TasError::Syntax {
            l: line,
            c: col,
            e: "Script ends inside brackets.",
            p: path.to_owned(),
        });
    }
    proof {
        assert(tokens_view(out@) + Seq::<TokenV>::empty() =~= tokens_view(out@));
    }
    Ok(out)
}

/// How many line-break bytes `s[i..]` holds.
pub open spec fn count_nl_bytes(s: Seq<u8>, i: int) -> nat
    decreases s.len() - i,
    when 0 <= i <= s.len()
{
    if i >= s.len() {
        0
    } else {
        (if s[i] == 10 {
            1nat
        } else {
            0nat
        }) + count_nl_bytes(s, i + 1)
    }
}

/// How many `Newline` tokens a token sequence holds.
pub open spec fn count_nl_toks(ts: Seq<TokenV>) -> nat
    decreases ts.len(),
{
    if ts.len() == 0 {
        0
    } else {
        (if ts[0] is Newline {
            1nat
        } else {
            0nat
        }) + count_nl_toks(ts.drop_first())
    }
}

proof fn lemma_count_nl_cons(t: TokenV, ts: Seq<TokenV>)
    ensures
        count_nl_toks(seq![t] + ts) == (if t is Newline {
            1nat
        } else {
            0nat
        }) + count_nl_toks(ts),
{
    assert((seq![t] + ts)[0] == t);
    assert((seq![t] + ts).drop_first() =~= ts);
    assert((seq![t] + ts).len() == 1 + ts.len());
}

proof fn lemma_count_nl_skip(s: Seq<u8>, i: int, j: int)
    requires
        0 <= i <= j <= s.len(),
        forall|m: int| i <= m < j ==> s[m] != 10,
    ensures
        count_nl_bytes(s, i) == count_nl_bytes(s, j),
    decreases j - i,
{
    if i < j {
        lemma_count_nl_skip(s, i + 1, j);
    }
}

/// A successful scan emits exactly one `Newline` token per line-break byte.
proof fn lemma_lex_from_nl(s: Seq<u8>, i: int, line: int, col: int, br: bool, prev: Prev)
    requires
        0 <= i <= s.len(),
        lex_from(s, i, line, col, br, prev) is Ok,
    ensures
        count_nl_toks(lex_from(s, i, line, col, br, prev)->Ok_0) == count_nl_bytes(s, i),
    decreases s.len() - i,
{
    if i >= s.len() {
    } else {
        let c = s[i];
        if c == 43 {
            lemma_lex_from_nl(s, i + 1, line, col + 1, br, prev);
        } else if c == 32 {
            lemma_lex_from_nl(s, i + 1, line, col + 1, br, Prev::Space);
            lemma_count_nl_cons(
                TokenV::Whitespace { line, col },
                lex_from(s, i + 1, line, col + 1, br, Prev::Space)->Ok_0,
            );
        } else if c == 10 {
            lemma_lex_from_nl(s, i + 1, line + 1, 0, br, Prev::Newline);
            lemma_count_nl_cons(
                TokenV::Newline { line, col },
                lex_from(s, i + 1, line + 1, 0, br, Prev::Newline)->Ok_0,
            );
        } else if c == 123 {
            lemma_lex_from_nl(s, i + 1, line, col + 1, true, Prev::Open);
            lemma_count_nl_cons(
                TokenV::BracketOpen { line, col },
                lex_from(s, i + 1, line, col + 1, true, Prev::Open)->Ok_0,
            );
        } else if c == 125 {
            lemma_lex_from_nl(s, i + 1, line, col + 1, false, Prev::Close);
            lemma_count_nl_cons(
                TokenV::BracketClose { line, col },
                lex_from(s, i + 1, line, col + 1, false, Prev::Close)->Ok_0,
            );
        } else if c == 44 {
            lemma_lex_from_nl(s, i + 1, line, col + 1, br, Prev::Comma);
            lemma_count_nl_cons(
                TokenV::Comma { line, col },
                lex_from(s, i + 1, line, col + 1, br, Prev::Comma)->Ok_0,
            );
        } else if is_digit(c) {
            let j = i + 1 + run_len(s, i + 1, digit_cls());
            let v = digits_val(s, i, j);
            lemma_run_len_le(s, i + 1, digit_cls());
            lemma_run_len_all(s, i + 1, digit_cls());
            lemma_count_nl_skip(s, i, j);
            lemma_lex_from_nl(s, j, line, col + (j - i), br, Prev::Number);
            lemma_count_nl_cons(
                TokenV::Number { val: v as u64, line, col },
                lex_from(s, j, line, col + (j - i), br, Prev::Number)->Ok_0,
            );
        } else if is_key_lead(c) && (br || !is_op_lead(c)) {
            let j = i + 1 + run_len(s, i + 1, key_char_cls());
            lemma_run_len_le(s, i + 1, key_char_cls());
            lemma_run_len_all(s, i + 1, key_char_cls());
            lemma_count_nl_skip(s, i, j);
            lemma_lex_from_nl(s, j, line, col + (j - i), br, Prev::Key);
            lemma_count_nl_cons(
                TokenV::Key { name: s.subrange(i, j), line, col },
                lex_from(s, j, line, col + (j - i), br, Prev::Key)->Ok_0,
            );
        } else if is_op_lead(c) {
            let j = i + 1 + run_len(s, i + 1, upper_cls());
            lemma_run_len_le(s, i + 1, upper_cls());
            lemma_run_len_all(s, i + 1, upper_cls());
            lemma_count_nl_skip(s, i, j);
            lemma_lex_from_nl(s, j, line, col + (j - i), false, Prev::Operation);
            lemma_count_nl_cons(
                TokenV::Operation { name: s.subrange(i, j), line, col },
                lex_from(s, j, line, col + (j - i), false, Prev::Operation)->Ok_0,
            );
        } else {
            lemma_lex_from_nl(s, i + 1, line, col + 1, br, prev);
        }
    }
}

/// A successful scan of a whole script emits exactly one `Newline` token per
/// line-break byte of the text.
pub proof fn lemma_lex_newline_count(s: Seq<u8>)
    requires
        lex_spec(s) is Ok,
    ensures
        count_nl_toks(lex_spec(s)->Ok_0) == count_nl_bytes(s, 0),
{
    lemma_lex_from_nl(s, 0, 1, 0, false, Prev::Start);
}

proof fn lemma_lex_from_no_plus(s: Seq<u8>, i: int, line: int, col: int, br: bool, prev: Prev)
    requires
        0 <= i <= s.len(),
        1 <= line,
        0 <= col,
        lex_from(s, i, line, col, br, prev) is Ok,
    ensures
        forall|m: int|
            i <= m < s.len() && s[m] == 43 ==> (line == 1 && col == 0 && m == i),
    decreases s.len() - i,
{
    if i >= s.len() {
    } else {
        let c = s[i];
        if c == 43 {
            lemma_lex_from_no_plus(s, i + 1, line, col + 1, br, prev);
        } else if c == 32 {
            lemma_lex_from_no_plus(s, i + 1, line, col + 1, br, Prev::Space);
        } else if c == 10 {
            lemma_lex_from_no_plus(s, i + 1, line + 1, 0, br, Prev::Newline);
        } else if c == 123 {
            lemma_lex_from_no_plus(s, i + 1, line, col + 1, true, Prev::Open);
        } else if c == 125 {
            lemma_lex_from_no_plus(s, i + 1, line, col + 1, false, Prev::Close);
        } else if c == 44 {
            lemma_lex_from_no_plus(s, i + 1, line, col + 1, br, Prev::Comma);
        } else if is_digit(c) {
            let j = i + 1 + run_len(s, i + 1, digit_cls());
            lemma_run_len_le(s, i + 1, digit_cls());
            lemma_run_len_all(s, i + 1, digit_cls());
            lemma_lex_from_no_plus(s, j, line, col + (j - i), br, Prev::Number);
        } else if is_key_lead(c) && (br || !is_op_lead(c)) {
            let j = i + 1 + run_len(s, i + 1, key_char_cls());
            lemma_run_len_le(s, i + 1, key_char_cls());
            lemma_run_len_all(s, i + 1, key_char_cls());
            lemma_lex_from_no_plus(s, j, line, col + (j - i), br, Prev::Key);
        } else if is_op_lead(c) {
            let j = i + 1 + run_len(s, i + 1, upper_cls());
            lemma_run_len_le(s, i + 1, upper_cls());
            lemma_run_len_all(s, i + 1, upper_cls());
            lemma_lex_from_no_plus(s, j, line, col + (j - i), false, Prev::Operation);
        } else {
            lemma_lex_from_no_plus(s, i + 1, line, col + 1, br, prev);
        }
    }
}

proof fn lemma_lex_from_len(s: Seq<u8>, i: int, line: int, col: int, br: bool, prev: Prev)
    requires
        0 <= i <= s.len(),
        lex_from(s, i, line, col, br, prev) is Ok,
    ensures
        lex_from(s, i, line, col, br, prev)->Ok_0.len() <= s.len() - i,
    decreases s.len() - i,
{
    if i >= s.len() {
    } else {
        let c = s[i];
        if c == 43 {
            lemma_lex_from_len(s, i + 1, line, col + 1, br, prev);
        } else if c == 32 {
            lemma_lex_from_len(s, i + 1, line, col + 1, br, Prev::Space);
        } else if c == 10 {
            lemma_lex_from_len(s, i + 1, line + 1, 0, br, Prev::Newline);
        } else if c == 123 {
            lemma_lex_from_len(s, i + 1, line, col + 1, true, Prev::Open);
        } else if c == 125 {
            lemma_lex_from_len(s, i + 1, line, col + 1, false, Prev::Close);
        } else if c == 44 {
            lemma_lex_from_len(s, i + 1, line, col + 1, br, Prev::Comma);
        } else if is_digit(c) {
            let j = i + 1 + run_len(s, i + 1, digit_cls());
            lemma_run_len_le(s, i + 1, digit_cls());
            lemma_lex_from_len(s, j, line, col + (j - i), br, Prev::Number);
        } else if is_key_lead(c) && (br || !is_op_lead(c)) {
            let j = i + 1 + run_len(s, i + 1, key_char_cls());
            lemma_run_len_le(s, i + 1, key_char_cls());
            lemma_lex_from_len(s, j, line, col + (j - i), br, Prev::Key);
        } else if is_op_lead(c) {
            let j = i + 1 + run_len(s, i + 1, upper_cls());
            lemma_run_len_le(s, i + 1, upper_cls());
            lemma_lex_from_len(s, j, line, col + (j - i), false, Prev::Operation);
        } else {
            lemma_lex_from_len(s, i + 1, line, col + 1, br, prev);
        }
    }
}

/// A script yields no more tokens than it has bytes.
pub proof fn lemma_lex_len(s: Seq<u8>)
    requires
        lex_spec(s) is Ok,
    ensures
        lex_spec(s)->Ok_0.len() <= s.len(),
{
    lemma_lex_from_len(s, 0, 1, 0, false, Prev::Start);
}

/// A leading marker byte `+` is tolerated only as the very first byte of the
/// script: any script that scans successfully has no `+` anywhere past
/// index 0.
pub proof fn lemma_plus_only_at_start(s: Seq<u8>)
    requires
        lex_spec(s) is Ok,
    ensures
        forall|m: int| 1 <= m < s.len() ==> s[m] != 43,
{
    lemma_lex_from_no_plus(s, 0, 1, 0, false, Prev::Start);
}

} // verus!
