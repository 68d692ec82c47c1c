//! The playback state machine: sticky state, RAW override, trigger flags.

use tasc::gen_tas;
use tasc::keys;
use tasc::play::{playback, PlayState};

fn states(text: &[u8]) -> Vec<PlayState> {
    let tas = gen_tas(text, "script.tas").expect("script should parse");
    playback(&tas.lines)
}

#[test]
fn initial_state_is_neutral() {
    let st = PlayState::new();
    assert_eq!(st, PlayState { held: 0, lx: 0, ly: 0, rx: 0, ry: 0, lt: 0, rt: 0 });
}

#[test]
fn on_accumulates_and_off_releases() {
    let ss = states(b"1 ON{A}\n1 ON{B}\n1 OFF{A}");
    assert_eq!(ss[0].held, keys::A);
    assert_eq!(ss[1].held, keys::A | keys::B);
    assert_eq!(ss[2].held, keys::B);
}

#[test]
fn raw_overrides_any_held_state() {
    // whatever ON/OFF history built up, RAW leaves exactly its own keys
    let ss = states(b"1 ON{A,B,X}\n1 RAW{Y}");
    assert_eq!(ss[1].held, keys::Y);
}

#[test]
fn raw_then_raw_never_unions() {
    let ss = states(b"1 RAW{A}\n1 RAW{B}");
    assert_eq!(ss[0].held, keys::A);
    assert_eq!(ss[1].held, keys::B);
}

#[test]
fn off_wins_within_a_frame() {
    let ss = states(b"1 ON{A}\n1 ON{B} OFF{A}");
    assert_eq!(ss[1].held, keys::B);
    // even over the frame's own request: asserting and releasing the same
    // button in one frame releases it
    let ss = states(b"1 ON{A} OFF{A}");
    assert_eq!(ss[0].held, keys::NONE);
}

#[test]
fn sticks_are_sticky() {
    let ss = states(b"1 LSTICK{90,50}\n1 ON{A}\n1 LSTICK{0,10} RSTICK{270,100}");
    assert_eq!((ss[0].lx, ss[0].ly), (50, 0));
    assert_eq!((ss[1].lx, ss[1].ly), (50, 0));
    assert_eq!((ss[2].lx, ss[2].ly), (0, 10));
    assert_eq!((ss[0].rx, ss[0].ry), (0, 0));
    assert_eq!((ss[2].rx, ss[2].ry), (-100, 0));
}

#[test]
fn trigger_flags_drive_levels_and_stick() {
    // bit 10 (DLEFT's position) is the left trigger flag, bit 11 the right
    let ss = states(b"1 ON{DLEFT}\n1 ON{A}\n1 OFF{DLEFT} ON{DRIGHT}\n1 OFF{DRIGHT}");
    assert_eq!(ss[0].lt, 255);
    assert_eq!(ss[0].held, 0); // trigger bits never join the held mask
    assert_eq!(ss[1].lt, 255); // sticky across a frame that is silent on it
    assert_eq!(ss[2].lt, 0);
    assert_eq!(ss[2].rt, 255);
    assert_eq!(ss[3].rt, 0);
}

#[test]
fn off_beats_on_for_a_trigger_in_one_frame() {
    let ss = states(b"1 ON{DLEFT} OFF{DLEFT}");
    assert_eq!(ss[0].lt, 0);
}

#[test]
fn one_state_per_frame() {
    assert_eq!(states(b"1\n2\n3").len(), 3);
    assert_eq!(states(b"").len(), 1);
}
