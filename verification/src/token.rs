//! Lexical units of the script language.
//!
//! A token carries its source position: lines are 1-based, columns are
//! 0-based byte offsets from the start of the line, and a token's position
//! is that of its first byte. Whitespace and line breaks are kept as tokens
//! because the parser uses them as segment delimiters and context markers.

use vstd::prelude::*;

verus! {

/// A source position: 1-based line, 0-based column.
#[derive(Clone, Copy, PartialEq, Eq, Structural, Debug)]
pub struct Pos {
    pub line: usize,
    pub col: usize,
}

/// One lexical unit. `Number` holds a decimal value, `Operation` and `Key`
/// hold the identifier's bytes.
#[derive(Debug)]
pub enum Token {
    Number(u64, Pos),
    Operation(Vec<u8>, Pos),
    BracketOpen(Pos),
    BracketClose(Pos),
    Key(Vec<u8>, Pos),
    Comma(Pos),
    Newline(Pos),
    Whitespace(Pos),
}

/// The mathematical shadow of a [`Token`]: identifier bytes as sequences,
/// positions as unbounded integers.
pub enum TokenV {
    Number { val: u64, line: int, col: int },
    Operation { name: Seq<u8>, line: int, col: int },
    BracketOpen { line: int, col: int },
    BracketClose { line: int, col: int },
    Key { name: Seq<u8>, line: int, col: int },
    Comma { line: int, col: int },
    Newline { line: int, col: int },
    Whitespace { line: int, col: int },
}

impl View for Token {
    type V = TokenV;

    open spec fn view(&self) -> TokenV {
        match self {
            Token::Number(v, p) => TokenV::Number { val: *v, line: p.line as int, col: p.col as int },
            Token::Operation(n, p) => TokenV::Operation { name: n@, line: p.line as int, col: p.col as int },
            Token::BracketOpen(p) => TokenV::BracketOpen { line: p.line as int, col: p.col as int },
            Token::BracketClose(p) => TokenV::BracketClose { line: p.line as int, col: p.col as int },
            Token::Key(n, p) => TokenV::Key { name: n@, line: p.line as int, col: p.col as int },
            Token::Comma(p) => TokenV::Comma { line: p.line as int, col: p.col as int },
            Token::Newline(p) => TokenV::Newline { line: p.line as int, col: p.col as int },
            Token::Whitespace(p) => TokenV::Whitespace { line: p.line as int, col: p.col as int },
        }
    }
}

/// The views of a token sequence.
pub open spec fn tokens_view(ts: Seq<Token>) -> Seq<TokenV> {
    ts.map_values(|t: Token| t@)
}

/// The numeric value a token carries, `0` for tokens that carry none.
pub open spec fn tok_num_val(t: TokenV) -> u64 {
    match t {
        TokenV::Number { val, .. } => val,
        _ => 0,
    }
}

/// The 1-based source line of a token.
pub open spec fn tok_line(t: TokenV) -> int {
    match t {
        TokenV::Number { line, .. } => line,
        TokenV::Operation { line, .. } => line,
        TokenV::BracketOpen { line, .. } => line,
        TokenV::BracketClose { line, .. } => line,
        TokenV::Key { line, .. } => line,
        TokenV::Comma { line, .. } => line,
        TokenV::Newline { line, .. } => line,
        TokenV::Whitespace { line, .. } => line,
    }
}

/// The 0-based source column of a token.
pub open spec fn tok_col(t: TokenV) -> int {
    match t {
        TokenV::Number { col, .. } => col,
        TokenV::Operation { col, .. } => col,
        TokenV::BracketOpen { col, .. } => col,
        TokenV::BracketClose { col, .. } => col,
        TokenV::Key { col, .. } => col,
        TokenV::Comma { col, .. } => col,
        TokenV::Newline { col, .. } => col,
        TokenV::Whitespace { col, .. } => col,
    }
}

/// The kind of token most recently emitted, or `Start` when none has been.
/// The lexer's structural rules are conditions on this and on whether the
/// scan is currently inside brackets.
#[derive(Clone, Copy, PartialEq, Eq, Structural, Debug)]
pub enum Prev {
    Start,
    Number,
    Operation,
    Open,
    Close,
    Key,
    Comma,
    Newline,
    Space,
}

/// ASCII decimal digit.
pub open spec fn is_digit(c: u8) -> bool {
    48 <= c <= 57
}

/// ASCII uppercase letter.
pub open spec fn is_upper(c: u8) -> bool {
    65 <= c <= 90
}

/// A byte that may continue a key identifier: uppercase or underscore.
pub open spec fn is_key_char(c: u8) -> bool {
    is_upper(c) || c == 95
}

/// A byte that may begin a key identifier: the first letters of the sixteen
/// button names and of `NONE` and `ALL` (A B D L M N P R X Y Z).
pub open spec fn is_key_lead(c: u8) -> bool {
    c == 65 || c == 66 || c == 68 || c == 76 || c == 77 || c == 78 || c == 80 || c == 82
        || c == 88 || c == 89 || c == 90
}

/// A byte that may begin an operation name: the first letters of `ON`,
/// `OFF`, `RAW`, `LSTICK`, `RSTICK` (L O R).
pub open spec fn is_op_lead(c: u8) -> bool {
    c == 76 || c == 79 || c == 82
}

/// Length of the run of bytes satisfying `f` that starts at `i`.
pub open spec fn run_len(s: Seq<u8>, i: int, f: spec_fn(u8) -> bool) -> nat
    decreases s.len() - i,
    when 0 <= i <= s.len()
{
    if i < s.len() && f(s[i]) {
        1 + run_len(s, i + 1, f)
    } else {
        0
    }
}

/// A run never reaches past the end of the sequence.
pub proof fn lemma_run_len_le(s: Seq<u8>, i: int, f: spec_fn(u8) -> bool)
    requires
        0 <= i <= s.len(),
    ensures
        i + run_len(s, i, f) <= s.len(),
    decreases s.len() - i,
{
    if i < s.len() && f(s[i]) {
        lemma_run_len_le(s, i + 1, f);
    }
}

/// Every byte inside a run satisfies `f`, and the byte after it (if any)
/// does not.
pub proof fn lemma_run_len_all(s: Seq<u8>, i: int, f: spec_fn(u8) -> bool)
    requires
        0 <= i <= s.len(),
    ensures
        forall|m: int| i <= m < i + run_len(s, i, f) ==> f(s[m]),
        i + run_len(s, i, f) < s.len() ==> !f(s[i + run_len(s, i, f)]),
    decreases s.len() - i,
{
    if i < s.len() && f(s[i]) {
        lemma_run_len_all(s, i + 1, f);
    }
}

/// Value of the decimal digit run `s[i..j)`, most significant digit first.
pub open spec fn digits_val(s: Seq<u8>, i: int, j: int) -> int
    decreases j - i,
    when i <= j
{
    if i >= j {
        0
    } else {
        digits_val(s, i, j - 1) * 10 + (s[j - 1] - 48)
    }
}

/// A digit run's value is non-negative.
pub proof fn lemma_digits_val_nonneg(s: Seq<u8>, i: int, j: int)
    requires
        i <= j,
        forall|m: int| i <= m < j ==> is_digit(s[m]),
    ensures
        digits_val(s, i, j) >= 0,
    decreases j - i,
{
    if i < j {
        lemma_digits_val_nonneg(s, i, j - 1);
    }
}

/// Extending a digit run to the right cannot shrink its value.
pub proof fn lemma_digits_val_mono(s: Seq<u8>, i: int, j: int)
    requires
        i < j,
        forall|m: int| i <= m < j ==> is_digit(s[m]),
    ensures
        digits_val(s, i, j) >= digits_val(s, i, j - 1),
{
    lemma_digits_val_nonneg(s, i, j - 1);
}

} // verus!
