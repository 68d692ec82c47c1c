//! The table rendering and the stick resolver's exact values.

use tasc::gen_tas;
use tasc::stick::Stick;

#[test]
fn render_one_line() {
    let tas = gen_tas(b"1 ON{A}", "script.tas").expect("should parse");
    let expected = "Frames   On               Off              Left Stick           Right Stick\n\
                    1        1                0                (x: 0; y: 0)         (x: 0; y: 0)\n";
    assert_eq!(tas.render(), expected.as_bytes().to_vec());
}

#[test]
fn render_is_idempotent() {
    let tas = gen_tas(b"5 ON{A,B}\n10 OFF{A} LSTICK{90,50}\n", "script.tas")
        .expect("should parse");
    let first = tas.render();
    let second = tas.render();
    assert_eq!(first, second);
    let expected = "Frames   On               Off              Left Stick           Right Stick\n\
                    5        11               0                (x: 0; y: 0)         (x: 0; y: 0)\n\
                    10       0                1                (x: 50; y: 0)        (x: 0; y: 0)\n\
                    0        0                0                (x: 0; y: 0)         (x: 0; y: 0)\n";
    assert_eq!(first, expected.as_bytes().to_vec());
}

#[test]
fn stick_resolution_is_deterministic() {
    // angle 0 at magnitude 100: x = ceil(sin 0 * 100) = 0, y = ceil(cos 0 * 100) = 100
    assert_eq!(Stick::from_polar(0, 100), Stick { x: 0, y: 100 });
    assert_eq!(Stick::from_polar(0, 100), Stick { x: 0, y: 100 });
}

#[test]
fn stick_quadrants() {
    assert_eq!(Stick::from_polar(90, 50), Stick { x: 50, y: 0 });
    assert_eq!(Stick::from_polar(180, 100), Stick { x: 0, y: -100 });
    assert_eq!(Stick::from_polar(270, 100), Stick { x: -100, y: 0 });
    assert_eq!(Stick::from_polar(360, 100), Stick { x: 0, y: 100 });
}

#[test]
fn stick_rounds_up() {
    // sin 30 deg is exactly 0.5: ceil(0.5 * 5) = 3
    assert_eq!(Stick::from_polar(30, 5).x, 3);
    // sin 45 deg scaled is 707107: ceil(707107 * 10 / 1000000) = 8
    assert_eq!(Stick::from_polar(45, 10).x, 8);
}

#[test]
fn stick_saturates_to_i16() {
    assert_eq!(Stick::from_polar(90, 1000000), Stick { x: 32767, y: 0 });
    assert_eq!(Stick::from_polar(270, 1000000), Stick { x: -32768, y: 0 });
}

#[test]
fn stick_neutral() {
    assert_eq!(Stick::new(), Stick { x: 0, y: 0 });
    assert_eq!(Stick::from_polar(123, 0), Stick { x: 0, y: 0 });
}
