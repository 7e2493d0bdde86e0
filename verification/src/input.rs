//! The input codec.
//!
//! A player's controls for one frame are one 8-bit symbol: four direction
//! bits reflecting held state, four action bits reflecting just-pressed
//! state (so a press fires once, not on every frame it is held). Opposing
//! direction bits may coexist in a symbol; decoding cancels them exactly.
use crate::fx::{Vec2Fx, DIAG, UNIT};
use vstd::prelude::*;

verus! {

/// Direction bit: up is held.
pub const INPUT_UP: u8 = 1;

/// Direction bit: down is held.
pub const INPUT_DOWN: u8 = 2;

/// Direction bit: left is held.
pub const INPUT_LEFT: u8 = 4;

/// Direction bit: right is held.
pub const INPUT_RIGHT: u8 = 8;

/// Action bit: light punch was just pressed. This is the fire button.
pub const INPUT_LP: u8 = 16;

/// Action bit: heavy punch was just pressed.
pub const INPUT_HP: u8 = 32;

/// Action bit: light kick was just pressed.
pub const INPUT_LK: u8 = 64;

/// Action bit: heavy kick was just pressed.
pub const INPUT_HK: u8 = 128;

/// The four action buttons a symbol can carry.
#[derive(Clone, Copy, PartialEq, Eq, Structural, Debug)]
pub enum ActionButton {
    LightPunch,
    HeavyPunch,
    LightKick,
    HeavyKick,
}

/// The bit that stands for an action button.
pub open spec fn action_mask(action: ActionButton) -> u8 {
    match action {
        ActionButton::LightPunch => INPUT_LP,
        ActionButton::HeavyPunch => INPUT_HP,
        ActionButton::LightKick => INPUT_LK,
        ActionButton::HeavyKick => INPUT_HK,
    }
}

/// Whether the fire action bit is set in a symbol.
pub open spec fn fires(sym: u8) -> bool {
    sym & INPUT_LP != 0
}

/// Horizontal component before normalization: right minus left, so
/// opposing bits cancel to zero.
pub open spec fn raw_x(sym: u8) -> int {
    (if sym & INPUT_RIGHT != 0 {
        1int
    } else {
        0int
    }) - (if sym & INPUT_LEFT != 0 {
        1int
    } else {
        0int
    })
}

/// Vertical component before normalization: up minus down.
pub open spec fn raw_y(sym: u8) -> int {
    (if sym & INPUT_UP != 0 {
        1int
    } else {
        0int
    }) - (if sym & INPUT_DOWN != 0 {
        1int
    } else {
        0int
    })
}

/// The decoded horizontal milli-component: `UNIT` on an axis, `DIAG` on a
/// diagonal, zero when the horizontal bits cancel or are absent.
pub open spec fn dir_x_of(sym: u8) -> int {
    if raw_x(sym) == 0 {
        0
    } else if raw_y(sym) == 0 {
        raw_x(sym) * (UNIT as int)
    } else {
        raw_x(sym) * (DIAG as int)
    }
}

/// The decoded vertical milli-component.
pub open spec fn dir_y_of(sym: u8) -> int {
    if raw_y(sym) == 0 {
        0
    } else if raw_x(sym) == 0 {
        raw_y(sym) * (UNIT as int)
    } else {
        raw_y(sym) * (DIAG as int)
    }
}

/// The symbol that encodes one frame of raw controls, one bit per
/// control.
pub open spec fn encode_spec(
    up: bool,
    down: bool,
    left: bool,
    right: bool,
    lp: bool,
    hp: bool,
    lk: bool,
    hk: bool,
) -> u8 {
    (if up {
        INPUT_UP
    } else {
        0
    }) | (if down {
        INPUT_DOWN
    } else {
        0
    }) | (if left {
        INPUT_LEFT
    } else {
        0
    }) | (if right {
        INPUT_RIGHT
    } else {
        0
    }) | (if lp {
        INPUT_LP
    } else {
        0
    }) | (if hp {
        INPUT_HP
    } else {
        0
    }) | (if lk {
        INPUT_LK
    } else {
        0
    }) | (if hk {
        INPUT_HK
    } else {
        0
    })
}

/// Encode one frame of raw controls into a symbol. Direction flags are
/// the held state of the four directions; action flags are the
/// just-pressed state of the four buttons. Each control sets exactly its
/// own bit.
pub fn encode(
    up: bool,
    down: bool,
    left: bool,
    right: bool,
    lp: bool,
    hp: bool,
    lk: bool,
    hk: bool,
) -> (sym: u8)
    ensures
        sym == encode_spec(up, down, left, right, lp, hp, lk, hk),
        (sym & INPUT_UP != 0) == up,
        (sym & INPUT_DOWN != 0) == down,
        (sym & INPUT_LEFT != 0) == left,
        (sym & INPUT_RIGHT != 0) == right,
        (sym & INPUT_LP != 0) == lp,
        (sym & INPUT_HP != 0) == hp,
        (sym & INPUT_LK != 0) == lk,
        (sym & INPUT_HK != 0) == hk,
{
    let sym: u8 = (if up {
        INPUT_UP
    } else {
        0
    }) | (if down {
        INPUT_DOWN
    } else {
        0
    }) | (if left {
        INPUT_LEFT
    } else {
        0
    }) | (if right {
        INPUT_RIGHT
    } else {
        0
    }) | (if lp {
        INPUT_LP
    } else {
        0
    }) | (if hp {
        INPUT_HP
    } else {
        0
    }) | (if lk {
        INPUT_LK
    } else {
        0
    }) | (if hk {
        INPUT_HK
    } else {
        0
    });
    proof {
        lemma_encode_bits(up, down, left, right, lp, hp, lk, hk);
    }
    sym
}

/// Every bit of an encoded symbol reflects exactly its own control.
proof fn lemma_encode_bits(
    up: bool,
    down: bool,
    left: bool,
    right: bool,
    lp: bool,
    hp: bool,
    lk: bool,
    hk: bool,
)
    ensures
        (encode_spec(up, down, left, right, lp, hp, lk, hk) & INPUT_UP != 0) == up,
        (encode_spec(up, down, left, right, lp, hp, lk, hk) & INPUT_DOWN != 0) == down,
        (encode_spec(up, down, left, right, lp, hp, lk, hk) & INPUT_LEFT != 0) == left,
        (encode_spec(up, down, left, right, lp, hp, lk, hk) & INPUT_RIGHT != 0) == right,
        (encode_spec(up, down, left, right, lp, hp, lk, hk) & INPUT_LP != 0) == lp,
        (encode_spec(up, down, left, right, lp, hp, lk, hk) & INPUT_HP != 0) == hp,
        (encode_spec(up, down, left, right, lp, hp, lk, hk) & INPUT_LK != 0) == lk,
        (encode_spec(up, down, left, right, lp, hp, lk, hk) & INPUT_HK != 0) == hk,
{
    assert((encode_spec(up, down, left, right, lp, hp, lk, hk) & 1u8 != 0) == up
        && (encode_spec(up, down, left, right, lp, hp, lk, hk) & 2u8 != 0) == down
        && (encode_spec(up, down, left, right, lp, hp, lk, hk) & 4u8 != 0) == left
        && (encode_spec(up, down, left, right, lp, hp, lk, hk) & 8u8 != 0) == right
        && (encode_spec(up, down, left, right, lp, hp, lk, hk) & 16u8 != 0) == lp
        && (encode_spec(up, down, left, right, lp, hp, lk, hk) & 32u8 != 0) == hp
        && (encode_spec(up, down, left, right, lp, hp, lk, hk) & 64u8 != 0) == lk
        && (encode_spec(up, down, left, right, lp, hp, lk, hk) & 128u8 != 0) == hk) by (bit_vector);
}

/// Decode a symbol's direction bits into a movement vector: up is `+y`,
/// down is `-y`, left is `-x`, right is `+x`, summed and normalized to
/// (fixed-point) unit length or zero. Opposing bits cancel exactly.
pub fn direction(input: u8) -> (r: Vec2Fx)
    ensures
        r.x as int == dir_x_of(input),
        r.y as int == dir_y_of(input),
{
    let rx: i64 = (if input & INPUT_RIGHT != 0 {
        1
    } else {
        0
    }) - (if input & INPUT_LEFT != 0 {
        1
    } else {
        0
    });
    let ry: i64 = (if input & INPUT_UP != 0 {
        1
    } else {
        0
    }) - (if input & INPUT_DOWN != 0 {
        1
    } else {
        0
    });
    let x: i64 = if rx == 0 {
        0
    } else if ry == 0 {
        rx * UNIT
    } else {
        rx * DIAG
    };
    let y: i64 = if ry == 0 {
        0
    } else if rx == 0 {
        ry * UNIT
    } else {
        ry * DIAG
    };
    Vec2Fx { x, y }
}

/// Test one action bit of a symbol.
pub fn decode_action(sym: u8, action: ActionButton) -> (r: bool)
    ensures
        r == (sym & action_mask(action) != 0),
{
    let mask: u8 = match action {
        ActionButton::LightPunch => INPUT_LP,
        ActionButton::HeavyPunch => INPUT_HP,
        ActionButton::LightKick => INPUT_LK,
        ActionButton::HeavyKick => INPUT_HK,
    };
    sym & mask != 0
}

/// Whether the symbol asserts the fire action.
pub fn fire(input: u8) -> (r: bool)
    ensures
        r == fires(input),
{
    input & INPUT_LP != 0
}

/// Law: for every symbol, simultaneous opposing direction bits cancel
/// exactly — left with right decodes to a zero horizontal component, up
/// with down to a zero vertical component.
pub proof fn lemma_opposing_bits_cancel(sym: u8)
    ensures
        sym & INPUT_LEFT != 0 && sym & INPUT_RIGHT != 0 ==> dir_x_of(sym) == 0,
        sym & INPUT_UP != 0 && sym & INPUT_DOWN != 0 ==> dir_y_of(sym) == 0,
{
}

/// Law: a symbol holding exactly one direction bit decodes to the unit
/// vector (of fixed-point length `UNIT`) along that axis.
pub proof fn lemma_single_bit_is_unit(sym: u8)
    ensures
        sym & INPUT_UP != 0 && sym & INPUT_DOWN == 0 && sym & INPUT_LEFT == 0 && sym & INPUT_RIGHT
            == 0 ==> dir_x_of(sym) == 0 && dir_y_of(sym) == UNIT,
        sym & INPUT_DOWN != 0 && sym & INPUT_UP == 0 && sym & INPUT_LEFT == 0 && sym & INPUT_RIGHT
            == 0 ==> dir_x_of(sym) == 0 && dir_y_of(sym) == -(UNIT as int),
        sym & INPUT_LEFT != 0 && sym & INPUT_UP == 0 && sym & INPUT_DOWN == 0 && sym & INPUT_RIGHT
            == 0 ==> dir_x_of(sym) == -(UNIT as int) && dir_y_of(sym) == 0,
        sym & INPUT_RIGHT != 0 && sym & INPUT_UP == 0 && sym & INPUT_DOWN == 0 && sym & INPUT_LEFT
            == 0 ==> dir_x_of(sym) == UNIT && dir_y_of(sym) == 0,
{
}

/// The decoded milli-components never exceed `UNIT` in magnitude.
pub proof fn lemma_direction_bounded(sym: u8)
    ensures
        -(UNIT as int) <= dir_x_of(sym) <= UNIT as int,
        -(UNIT as int) <= dir_y_of(sym) <= UNIT as int,
{
}

} // verus!
