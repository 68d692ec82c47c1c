//! A verified front end and playback model for a small scripting language
//! that describes timed game-controller input sequences.
//!
//! A script is a sequence of lines; each line gives a frame delay (in ticks
//! of a 60 Hz clock) and operations that assert buttons (`ON`), release them
//! (`OFF`), replace the whole held set (`RAW`), or move a stick (`LSTICK`,
//! `RSTICK`). The lexer ([`lex::lex`]) turns script text into positioned
//! tokens while enforcing the structural rules of the grammar; the parser
//! ([`parse::Tas::parse_tas`]) turns the token stream into one [`parse::Line`]
//! per script line; the playback model ([`play::PlayState`]) turns the line
//! sequence into a stream of absolute controller states. Reading the script
//! from disk and delivering states to a real controller device are the
//! caller's business.

use vstd::prelude::*;

pub mod keys;
pub mod token;
pub mod lex;
pub mod stick;
pub mod parse;
pub mod play;
pub mod render;

use crate::lex::{lex_err_matches, lex_spec, LexFault};
use crate::parse::{parse_spec, sem_err_matches, Line, SemFault, Tas};
use crate::token::TokenV;

verus! {

/// What can go wrong: a lexical fault in the script text (`Syntax`), a
/// semantically invalid token stream (`Parse`), an unreadable script file
/// (`Fs`), or a failure of the controller sink (`Vigem`). The first two
/// carry the 1-based line, the 0-based column of the offending character,
/// a fixed message, and the path of the script file. All four are fatal to
/// the operation that produced them.
#[derive(Debug)]
pub enum TasError {
    Parse { l: usize, c: usize, e: &'static str, p: String },
    Syntax { l: usize, c: usize, e: &'static str, p: String },
    Fs { e: String },
    Vigem { e: String },
}

/// What the caller asked for on the command line.
pub enum Action {
    Interpret,
    Compile,
    Check,
}

/// A parsed command line: the action, the script file's path, and whether
/// to print debugging output during playback.
pub struct Config {
    pub act: Action,
    pub infile: String,
    pub dbg: bool,
}

/// Whether the pipeline `lex` then `parse` succeeds on the script text
/// `s`, yielding the frames `ls`.
pub open spec fn parses_to(s: Seq<u8>, ls: Seq<Line>) -> bool {
    exists|ts: Seq<TokenV>|
        lex_spec(s) == Ok::<Seq<TokenV>, LexFault>(ts) && parse_spec(ts) == Ok::<
            Seq<Line>,
            SemFault,
        >(ls)
}

/// Whether the executable error `e` reports the first fault of the
/// pipeline on the script text `s` at `path`: the first lexical fault if
/// the text does not scan, else the first semantic fault.
pub open spec fn pipeline_err_matches(e: TasError, s: Seq<u8>, path: Seq<char>) -> bool {
    match lex_spec(s) {
        Err(f) => lex_err_matches(e, f, path),
        Ok(ts) => parse_spec(ts) matches Err(f) && sem_err_matches(e, f, path),
    }
}

/// Compile script text into a parsed script: scan it into tokens, then
/// interpret the tokens into one frame per line. Succeeds exactly when
/// both stages do, and otherwise reports the first fault, which carries
/// the script's `path`.
pub fn gen_tas(text: &[u8], path: &str) -> (r: Result<Tas, TasError>)
    requires
        text@.len() < usize::MAX,
    ensures
        match r {
            Ok(t) => parses_to(text@, t.lines@),
            Err(e) => pipeline_err_matches(e, text@, path@),
        },
{
    let tok = match crate::lex::lex(text, path) {
        Ok(t) => t,
        Err(e) => {
            return Err(e);
        },
    };
    proof {
        crate::lex::lemma_lex_len(text@);
    }
    match Tas::parse_tas(tok, path) {
        Ok(t) => Ok(t),
        Err(e) => Err(e),
    }
}

/// Check a script: parse its text and report the first diagnostic, if any.
/// Succeeds exactly when the whole pipeline does.
pub fn run_tas(cfg: &Config, text: &[u8]) -> (r: Result<(), TasError>)
    requires
        text@.len() < usize::MAX,
    ensures
        match r {
            Ok(_) => exists|ls: Seq<Line>| parses_to(text@, ls),
            Err(e) => pipeline_err_matches(e, text@, cfg.infile@),
        },
{
    match gen_tas(text, cfg.infile.as_str()) {
        Ok(t) => {
            proof {
                assert(parses_to(text@, t.lines@));
            }
            Ok(())
        },
        Err(e) => Err(e),
    }
}

} // verus!
