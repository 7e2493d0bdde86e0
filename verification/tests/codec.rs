use rollback_core::fx::{DIAG, UNIT};
use rollback_core::input::{
    decode_action, direction, encode, fire, ActionButton, INPUT_DOWN, INPUT_HK, INPUT_HP,
    INPUT_LEFT, INPUT_LK, INPUT_LP, INPUT_RIGHT, INPUT_UP,
};

#[test]
fn opposite_bits_cancel() {
    let lr = INPUT_LEFT | INPUT_RIGHT;
    let d = direction(lr);
    assert_eq!((d.x, d.y), (0, 0));
    let ud = INPUT_UP | INPUT_DOWN;
    let d = direction(ud);
    assert_eq!((d.x, d.y), (0, 0));
    let all = INPUT_UP | INPUT_DOWN | INPUT_LEFT | INPUT_RIGHT;
    let d = direction(all);
    assert_eq!((d.x, d.y), (0, 0));
}

#[test]
fn single_bits_are_unit_vectors() {
    assert_eq!(direction(INPUT_UP), rollback_core::fx::Vec2Fx { x: 0, y: UNIT });
    assert_eq!(direction(INPUT_DOWN), rollback_core::fx::Vec2Fx { x: 0, y: -UNIT });
    assert_eq!(direction(INPUT_LEFT), rollback_core::fx::Vec2Fx { x: -UNIT, y: 0 });
    assert_eq!(direction(INPUT_RIGHT), rollback_core::fx::Vec2Fx { x: UNIT, y: 0 });
}

#[test]
fn diagonals_are_normalized() {
    let d = direction(INPUT_UP | INPUT_RIGHT);
    assert_eq!((d.x, d.y), (DIAG, DIAG));
    let d = direction(INPUT_DOWN | INPUT_LEFT);
    assert_eq!((d.x, d.y), (-DIAG, -DIAG));
    // one axis cancelled, the other is a full unit
    let d = direction(INPUT_LEFT | INPUT_RIGHT | INPUT_UP);
    assert_eq!((d.x, d.y), (0, UNIT));
}

#[test]
fn encode_sets_exactly_the_held_bits() {
    let sym = encode(true, false, false, true, true, false, false, true);
    assert_eq!(sym, INPUT_UP | INPUT_RIGHT | INPUT_LP | INPUT_HK);
    let idle = encode(false, false, false, false, false, false, false, false);
    assert_eq!(idle, 0);
    let everything = encode(true, true, true, true, true, true, true, true);
    assert_eq!(everything, 255);
}

#[test]
fn action_bits_decode_independently() {
    let sym = INPUT_HP | INPUT_LK;
    assert!(!decode_action(sym, ActionButton::LightPunch));
    assert!(decode_action(sym, ActionButton::HeavyPunch));
    assert!(decode_action(sym, ActionButton::LightKick));
    assert!(!decode_action(sym, ActionButton::HeavyKick));
}

#[test]
fn fire_is_the_light_punch_bit() {
    assert!(fire(INPUT_LP));
    assert!(fire(INPUT_LP | INPUT_LEFT));
    assert!(!fire(INPUT_HP | INPUT_LK | INPUT_HK | INPUT_UP));
    assert!(!fire(0));
}
