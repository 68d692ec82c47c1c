//! End-to-end parsing: scripts in, frames or diagnostics out.

use tasc::gen_tas;
use tasc::keys;
use tasc::run_tas;
use tasc::Action;
use tasc::Config;
use tasc::parse::Line;
use tasc::stick::Stick;
use tasc::TasError;

fn frames(text: &[u8]) -> Vec<Line> {
    gen_tas(text, "script.tas").expect("script should parse").lines
}

fn fail(text: &[u8]) -> TasError {
    match gen_tas(text, "script.tas") {
        Ok(_) => panic!("script should not parse"),
        Err(e) => e,
    }
}

#[test]
fn end_to_end_scenario() {
    // Two written lines; the trailing line break opens a final empty
    // segment, which parses to the default frame.
    let ls = frames(b"5 ON{A,B}\n10 OFF{A} LSTICK{90,50}\n");
    assert_eq!(ls.len(), 3);
    assert_eq!(ls[0].delay, 5);
    assert_eq!(ls[0].on, keys::A | keys::B);
    assert_eq!(ls[0].off, keys::NONE);
    assert_eq!(ls[0].lstick, None);
    assert_eq!(ls[0].rstick, None);
    assert_eq!(ls[1].delay, 10);
    assert_eq!(ls[1].on, keys::NONE);
    assert_eq!(ls[1].off, keys::A);
    assert_eq!(ls[1].lstick, Some(Stick { x: 50, y: 0 }));
    assert_eq!(ls[1].rstick, None);
    assert_eq!(ls[2], Line { delay: 0, on: 0, off: 0, lstick: None, rstick: None });
}

#[test]
fn one_frame_per_line_break() {
    assert_eq!(frames(b"1").len(), 1);
    assert_eq!(frames(b"1\n2").len(), 2);
    assert_eq!(frames(b"1\n2\n3").len(), 3);
    assert_eq!(frames(b"1\n").len(), 2);
    assert_eq!(frames(b"").len(), 1);
}

#[test]
fn empty_line_yields_default_frame() {
    let ls = frames(b"");
    assert_eq!(ls[0].delay, 0);
    assert_eq!(ls[0].on, keys::NONE);
    assert_eq!(ls[0].off, keys::NONE);
}

#[test]
fn key_list_or_is_commutative_and_idempotent() {
    let a = frames(b"1 ON{A,B}");
    let b = frames(b"1 ON{B,A}");
    let c = frames(b"1 ON{A,A,B}");
    assert_eq!(a[0].on, keys::A | keys::B);
    assert_eq!(a[0].on, b[0].on);
    assert_eq!(a[0].on, c[0].on);
}

#[test]
fn all_sixteen_keys_resolve() {
    let ls = frames(
        b"1 ON{A,B,X,Y,L,R,ZL,ZR} OFF{DUP,DDOWN,DLEFT,DRIGHT,PLUS,MINUS,LSTICK,RSTICK}",
    );
    assert_eq!(ls[0].on, 0x00ff);
    assert_eq!(ls[0].off, 0xff00);
}

#[test]
fn sentinel_keys_resolve() {
    let ls = frames(b"1 ON{ALL} OFF{NONE}");
    assert_eq!(ls[0].on, keys::ALL);
    assert_eq!(ls[0].off, keys::NONE);
}

#[test]
fn repeated_on_groups_accumulate() {
    // key lists OR-combine into the masks; repeated groups never overwrite
    let ls = frames(b"1 ON{A} ON{B} OFF{X} OFF{Y}");
    assert_eq!(ls[0].on, keys::A | keys::B);
    assert_eq!(ls[0].off, keys::X | keys::Y);
}

#[test]
fn stick_group_must_be_exactly_angle_comma_magnitude_close() {
    match fail(b"1 LSTICK{1,2,3}") {
        TasError::Parse { e, .. } => assert_eq!(e, "Malformed stick information."),
        other => panic!("expected a Parse error, got {:?}", other),
    }
}

#[test]
fn raw_sets_off_all() {
    let ls = frames(b"1 RAW{A}");
    assert_eq!(ls[0].on, keys::A);
    assert_eq!(ls[0].off, keys::ALL);
}

#[test]
fn delay_holds_largest_u64() {
    let ls = frames(b"18446744073709551615 ON{A}");
    assert_eq!(ls[0].delay, u64::MAX);
}

#[test]
fn leading_plus_is_tolerated_at_start() {
    let ls = frames(b"+5 ON{A}");
    assert_eq!(ls[0].delay, 5);
    assert_eq!(ls[0].on, keys::A);
}

#[test]
fn unknown_operation_is_a_semantic_fault() {
    match fail(b"1 RAWR{A}") {
        TasError::Parse { l, c, e, p } => {
            assert_eq!(e, "Unknown operation.");
            assert_eq!(l, 1);
            assert_eq!(c, 2);
            assert_eq!(p, "script.tas");
        }
        other => panic!("expected a Parse error, got {:?}", other),
    }
}

#[test]
fn unknown_key_is_a_semantic_fault() {
    match fail(b"1 ON{AB}") {
        TasError::Parse { e, .. } => assert_eq!(e, "Unknown key identifier."),
        other => panic!("expected a Parse error, got {:?}", other),
    }
}

#[test]
fn malformed_stick_is_a_semantic_fault() {
    match fail(b"1 LSTICK{90}") {
        TasError::Parse { e, .. } => assert_eq!(e, "Malformed stick information."),
        other => panic!("expected a Parse error, got {:?}", other),
    }
}

#[test]
fn stick_missing_angle_is_a_semantic_fault() {
    // a key where the angle belongs: the magnitude is read, the angle is not
    match fail(b"1 LSTICK{A,5}") {
        TasError::Parse { e, .. } => assert_eq!(e, "Malformed stick information."),
        other => panic!("expected a Parse error, got {:?}", other),
    }
}

#[test]
fn run_tas_checks_a_script() {
    let cfg = Config { act: Action::Check, infile: String::from("script.tas"), dbg: false };
    assert!(run_tas(&cfg, b"5 ON{A,B}\n10 OFF{A}").is_ok());
    assert!(run_tas(&cfg, b"5 ON {A").is_err());
}
