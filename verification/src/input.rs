//! Input events: what the displayer collects and the capturer injects.
//!
//! Events travel as a stream of self-delimiting records on the `Keys`
//! sub-channel. Mouse motion is relative; its deltas, like gamepad axis
//! values, are carried as the bit patterns of the platform's floating-point
//! values, so the wire round-trip is exact bit for bit.

use crate::wire;
use vstd::prelude::*;

verus! {

/// A gamepad button, named as the platform pollers report them.
#[derive(PartialEq, Eq, Structural, Clone, Copy, Debug)]
pub enum PadButton {
    North,
    South,
    East,
    West,
    DPadLeft,
    DPadRight,
    DPadDown,
    DPadUp,
    Select,
    Start,
    Mode,
    RightTrigger,
    LeftTrigger,
    RightTrigger2,
    LeftTrigger2,
    RightThumb,
    LeftThumb,
}

/// A gamepad axis.
#[derive(PartialEq, Eq, Structural, Clone, Copy, Debug)]
pub enum PadAxis {
    LeftStickX,
    LeftStickY,
    RightStickX,
    RightStickY,
    LeftZ,
    RightZ,
}

/// One input event record.
#[allow(inconsistent_fields)]
#[derive(PartialEq, Eq, Structural, Clone, Copy, Debug)]
pub enum KeyEvent {
    /// A key press or release, by code point.
    Key { letter: char, state: bool },
    /// Relative mouse motion; the fields hold the bit patterns of the two
    /// 64-bit floating-point deltas.
    Mouse { x_bits: u64, y_bits: u64 },
    /// A mouse button (0 left, 1 middle, 2 right) press or release.
    Click { button: u8, state: bool },
    /// A gamepad button edge with its new state.
    GamepadButton { button: PadButton, state: u8 },
    /// A gamepad axis motion; the field holds the bit pattern of the 32-bit
    /// floating-point position in [-1, 1].
    GamepadAxis { axis: PadAxis, value_bits: u32 },
}

pub open spec fn pad_button_code(b: PadButton) -> u8 {
    match b {
        PadButton::North => 0,
        PadButton::South => 1,
        PadButton::East => 2,
        PadButton::West => 3,
        PadButton::DPadLeft => 4,
        PadButton::DPadRight => 5,
        PadButton::DPadDown => 6,
        PadButton::DPadUp => 7,
        PadButton::Select => 8,
        PadButton::Start => 9,
        PadButton::Mode => 10,
        PadButton::RightTrigger => 11,
        PadButton::LeftTrigger => 12,
        PadButton::RightTrigger2 => 13,
        PadButton::LeftTrigger2 => 14,
        PadButton::RightThumb => 15,
        PadButton::LeftThumb => 16,
    }
}

pub open spec fn pad_button_of(x: u8) -> Option<PadButton> {
    if x == 0 {
        Some(PadButton::North)
    } else if x == 1 {
        Some(PadButton::South)
    } else if x == 2 {
        Some(PadButton::East)
    } else if x == 3 {
        Some(PadButton::West)
    } else if x == 4 {
        Some(PadButton::DPadLeft)
    } else if x == 5 {
        Some(PadButton::DPadRight)
    } else if x == 6 {
        Some(PadButton::DPadDown)
    } else if x == 7 {
        Some(PadButton::DPadUp)
    } else if x == 8 {
        Some(PadButton::Select)
    } else if x == 9 {
        Some(PadButton::Start)
    } else if x == 10 {
        Some(PadButton::Mode)
    } else if x == 11 {
        Some(PadButton::RightTrigger)
    } else if x == 12 {
        Some(PadButton::LeftTrigger)
    } else if x == 13 {
        Some(PadButton::RightTrigger2)
    } else if x == 14 {
        Some(PadButton::LeftTrigger2)
    } else if x == 15 {
        Some(PadButton::RightThumb)
    } else if x == 16 {
        Some(PadButton::LeftThumb)
    } else {
        None
    }
}

pub open spec fn pad_axis_code(a: PadAxis) -> u8 {
    match a {
        PadAxis::LeftStickX => 0,
        PadAxis::LeftStickY => 1,
        PadAxis::RightStickX => 2,
        PadAxis::RightStickY => 3,
        PadAxis::LeftZ => 4,
        PadAxis::RightZ => 5,
    }
}

pub open spec fn pad_axis_of(x: u8) -> Option<PadAxis> {
    if x == 0 {
        Some(PadAxis::LeftStickX)
    } else if x == 1 {
        Some(PadAxis::LeftStickY)
    } else if x == 2 {
        Some(PadAxis::RightStickX)
    } else if x == 3 {
        Some(PadAxis::RightStickY)
    } else if x == 4 {
        Some(PadAxis::LeftZ)
    } else if x == 5 {
        Some(PadAxis::RightZ)
    } else {
        None
    }
}

pub proof fn lemma_pad_codes_roundtrip(b: PadButton, a: PadAxis)
    ensures
        pad_button_of(pad_button_code(b)) == Some(b),
        pad_axis_of(pad_axis_code(a)) == Some(a),
{
}

/// Whether the virtual device expects this axis with its sign flipped:
/// stick Y axes grow downward on the platform but upward on the wire.
pub fn pad_axis_inverted(a: PadAxis) -> (r: bool)
    ensures
        r == (a == PadAxis::LeftStickY || a == PadAxis::RightStickY),
{
    match a {
        PadAxis::LeftStickY => true,
        PadAxis::RightStickY => true,
        _ => false,
    }
}

/// The wire image of one input event.
pub open spec fn spec_enc_key_event(e: KeyEvent) -> Seq<u8> {
    match e {
        KeyEvent::Key { letter, state } => wire::spec_enc_u8(0) + wire::spec_enc_char(letter)
            + wire::spec_enc_bool(state),
        KeyEvent::Mouse { x_bits, y_bits } => wire::spec_enc_u8(1) + wire::spec_enc_u64(x_bits)
            + wire::spec_enc_u64(y_bits),
        KeyEvent::Click { button, state } => wire::spec_enc_u8(2) + wire::spec_enc_u8(button)
            + wire::spec_enc_bool(state),
        KeyEvent::GamepadButton { button, state } => wire::spec_enc_u8(3) + wire::spec_enc_u8(
            pad_button_code(button),
        ) + wire::spec_enc_u8(state),
        KeyEvent::GamepadAxis { axis, value_bits } => wire::spec_enc_u8(4) + wire::spec_enc_u8(
            pad_axis_code(axis),
        ) + wire::spec_enc_u64(value_bits as u64),
    }
}

/// The first input event of a byte stream at `pos`, with the position just
/// past it.
pub open spec fn spec_dec_key_event(s: Seq<u8>, pos: int) -> Option<(KeyEvent, int)> {
    match wire::spec_dec_u8(s, pos) {
        Some((tag, p)) => {
            if tag == 0 {
                match wire::spec_dec_char(s, p) {
                    Some((letter, p2)) => match wire::spec_dec_bool(s, p2) {
                        Some((state, p3)) => Some((KeyEvent::Key { letter, state }, p3)),
                        None => None,
                    },
                    None => None,
                }
            } else if tag == 1 {
                match wire::spec_dec_u64(s, p) {
                    Some((x_bits, p2)) => match wire::spec_dec_u64(s, p2) {
                        Some((y_bits, p3)) => Some((KeyEvent::Mouse { x_bits, y_bits }, p3)),
                        None => None,
                    },
                    None => None,
                }
            } else if tag == 2 {
                match wire::spec_dec_u8(s, p) {
                    Some((button, p2)) => match wire::spec_dec_bool(s, p2) {
                        Some((state, p3)) => Some((KeyEvent::Click { button, state }, p3)),
                        None => None,
                    },
                    None => None,
                }
            } else if tag == 3 {
                match wire::spec_dec_u8(s, p) {
                    Some((bc, p2)) => match pad_button_of(bc) {
                        Some(button) => match wire::spec_dec_u8(s, p2) {
                            Some((state, p3)) => Some(
                                (KeyEvent::GamepadButton { button, state }, p3),
                            ),
                            None => None,
                        },
                        None => None,
                    },
                    None => None,
                }
            } else if tag == 4 {
                match wire::spec_dec_u8(s, p) {
                    Some((ac, p2)) => match pad_axis_of(ac) {
                        Some(axis) => match wire::spec_dec_u64(s, p2) {
                            Some((v, p3)) => if v <= u32::MAX {
                                Some((KeyEvent::GamepadAxis { axis, value_bits: v as u32 }, p3))
                            } else {
                                None
                            },
                            None => None,
                        },
                        None => None,
                    },
                    None => None,
                }
            } else {
                None
            }
        },
        None => None,
    }
}

fn pad_button_code_of(b: PadButton) -> (r: u8)
    ensures
        r == pad_button_code(b),
{
    match b {
        PadButton::North => 0,
        PadButton::South => 1,
        PadButton::East => 2,
        PadButton::West => 3,
        PadButton::DPadLeft => 4,
        PadButton::DPadRight => 5,
        PadButton::DPadDown => 6,
        PadButton::DPadUp => 7,
        PadButton::Select => 8,
        PadButton::Start => 9,
        PadButton::Mode => 10,
        PadButton::RightTrigger => 11,
        PadButton::LeftTrigger => 12,
        PadButton::RightTrigger2 => 13,
        PadButton::LeftTrigger2 => 14,
        PadButton::RightThumb => 15,
        PadButton::LeftThumb => 16,
    }
}

fn pad_button_from(x: u8) -> (r: Option<PadButton>)
    ensures
        r == pad_button_of(x),
{
    if x == 0 {
        Some(PadButton::North)
    } else if x == 1 {
        Some(PadButton::South)
    } else if x == 2 {
        Some(PadButton::East)
    } else if x == 3 {
        Some(PadButton::West)
    } else if x == 4 {
        Some(PadButton::DPadLeft)
    } else if x == 5 {
        Some(PadButton::DPadRight)
    } else if x == 6 {
        Some(PadButton::DPadDown)
    } else if x == 7 {
        Some(PadButton::DPadUp)
    } else if x == 8 {
        Some(PadButton::Select)
    } else if x == 9 {
        Some(PadButton::Start)
    } else if x == 10 {
        Some(PadButton::Mode)
    } else if x == 11 {
        Some(PadButton::RightTrigger)
    } else if x == 12 {
        Some(PadButton::LeftTrigger)
    } else if x == 13 {
        Some(PadButton::RightTrigger2)
    } else if x == 14 {
        Some(PadButton::LeftTrigger2)
    } else if x == 15 {
        Some(PadButton::RightThumb)
    } else if x == 16 {
        Some(PadButton::LeftThumb)
    } else {
        None
    }
}

fn pad_axis_code_of(a: PadAxis) -> (r: u8)
    ensures
        r == pad_axis_code(a),
{
    match a {
        PadAxis::LeftStickX => 0,
        PadAxis::LeftStickY => 1,
        PadAxis::RightStickX => 2,
        PadAxis::RightStickY => 3,
        PadAxis::LeftZ => 4,
        PadAxis::RightZ => 5,
    }
}

fn pad_axis_from(x: u8) -> (r: Option<PadAxis>)
    ensures
        r == pad_axis_of(x),
{
    if x == 0 {
        Some(PadAxis::LeftStickX)
    } else if x == 1 {
        Some(PadAxis::LeftStickY)
    } else if x == 2 {
        Some(PadAxis::RightStickX)
    } else if x == 3 {
        Some(PadAxis::RightStickY)
    } else if x == 4 {
        Some(PadAxis::LeftZ)
    } else if x == 5 {
        Some(PadAxis::RightZ)
    } else {
        None
    }
}

/// Serializes one input event for the `Keys` sub-channel.
pub fn encode_key_event(e: &KeyEvent) -> (r: Vec<u8>)
    ensures
        r@ == spec_enc_key_event(*e),
{
    let mut out: Vec<u8> = Vec::new();
    match *e {
        KeyEvent::Key { letter, state } => {
            wire::enc_u8(&mut out, 0);
            wire::enc_char(&mut out, letter);
            wire::enc_bool(&mut out, state);
        },
        KeyEvent::Mouse { x_bits, y_bits } => {
            wire::enc_u8(&mut out, 1);
            wire::enc_u64(&mut out, x_bits);
            wire::enc_u64(&mut out, y_bits);
        },
        KeyEvent::Click { button, state } => {
            wire::enc_u8(&mut out, 2);
            wire::enc_u8(&mut out, button);
            wire::enc_bool(&mut out, state);
        },
        KeyEvent::GamepadButton { button, state } => {
            wire::enc_u8(&mut out, 3);
            wire::enc_u8(&mut out, pad_button_code_of(button));
            wire::enc_u8(&mut out, state);
        },
        KeyEvent::GamepadAxis { axis, value_bits } => {
            wire::enc_u8(&mut out, 4);
            wire::enc_u8(&mut out, pad_axis_code_of(axis));
            wire::enc_u64(&mut out, value_bits as u64);
        },
    }
    proof {
        assert(out@ =~= spec_enc_key_event(*e));
    }
    out
}

/// Parses the first input event of the stream at `pos`; bytes after it
/// belong to the following events.
pub fn decode_key_event(buf: &Vec<u8>, pos: usize) -> (r: Option<(KeyEvent, usize)>)
    ensures
        match r {
            Some((e, p)) => spec_dec_key_event(buf@, pos as int) == Some((e, p as int)),
            None => spec_dec_key_event(buf@, pos as int) is None,
        },
{
    let (tag, p) = match wire::dec_u8(buf, pos) {
        Some(x) => x,
        None => {
            return None;
        },
    };
    if tag == 0 {
        let (letter, p2) = match wire::dec_char(buf, p) {
            Some(x) => x,
            None => {
                return None;
            },
        };
        match wire::dec_bool(buf, p2) {
            Some((state, p3)) => Some((KeyEvent::Key { letter, state }, p3)),
            None => None,
        }
    } else if tag == 1 {
        let (x_bits, p2) = match wire::dec_u64(buf, p) {
            Some(x) => x,
            None => {
                return None;
            },
        };
        match wire::dec_u64(buf, p2) {
            Some((y_bits, p3)) => Some((KeyEvent::Mouse { x_bits, y_bits }, p3)),
            None => None,
        }
    } else if tag == 2 {
        let (button, p2) = match wire::dec_u8(buf, p) {
            Some(x) => x,
            None => {
                return None;
            },
        };
        match wire::dec_bool(buf, p2) {
            Some((state, p3)) => Some((KeyEvent::Click { button, state }, p3)),
            None => None,
        }
    } else if tag == 3 {
        let (bc, p2) = match wire::dec_u8(buf, p) {
            Some(x) => x,
            None => {
                return None;
            },
        };
        let button = match pad_button_from(bc) {
            Some(b) => b,
            None => {
                return None;
            },
        };
        match wire::dec_u8(buf, p2) {
            Some((state, p3)) => Some((KeyEvent::GamepadButton { button, state }, p3)),
            None => None,
        }
    } else if tag == 4 {
        let (ac, p2) = match wire::dec_u8(buf, p) {
            Some(x) => x,
            None => {
                return None;
            },
        };
        let axis = match pad_axis_from(ac) {
            Some(a) => a,
            None => {
                return None;
            },
        };
        match wire::dec_u64(buf, p2) {
            Some((v, p3)) => {
                if v <= u32::MAX as u64 {
                    Some((KeyEvent::GamepadAxis { axis, value_bits: v as u32 }, p3))
                } else {
                    None
                }
            },
            None => None,
        }
    } else {
        None
    }
}

/// Law: deserializing a serialized input event gives the event back, even
/// with the following events of the stream behind it.
pub proof fn lemma_key_event_roundtrip(e: KeyEvent, s: Seq<u8>, pos: int, rest: Seq<u8>)
    requires
        0 <= pos <= s.len(),
        s.subrange(pos, s.len() as int) == spec_enc_key_event(e) + rest,
    ensures
        spec_dec_key_event(s, pos) == Some((e, pos + spec_enc_key_event(e).len())),
{
    vstd::bytes::lemma_auto_spec_u64_to_from_le_bytes();
    match e {
        KeyEvent::Key { letter, state } => {
            let e1 = wire::spec_enc_u8(0);
            let e2 = wire::spec_enc_char(letter);
            let e3 = wire::spec_enc_bool(state);
            assert(s.subrange(pos, s.len() as int) =~= e1 + (e2 + (e3 + rest)));
            wire::lemma_enc_at(s, pos, e1, e2 + (e3 + rest));
            wire::lemma_dec_enc_u8(s, pos, 0);
            wire::lemma_enc_at(s, pos + 2, e2, e3 + rest);
            wire::lemma_dec_enc_char(s, pos + 2, letter);
            wire::lemma_enc_at(s, pos + 11, e3, rest);
            wire::lemma_dec_enc_bool(s, pos + 11, state);
        },
        KeyEvent::Mouse { x_bits, y_bits } => {
            let e1 = wire::spec_enc_u8(1);
            let e2 = wire::spec_enc_u64(x_bits);
            let e3 = wire::spec_enc_u64(y_bits);
            assert(s.subrange(pos, s.len() as int) =~= e1 + (e2 + (e3 + rest)));
            wire::lemma_enc_at(s, pos, e1, e2 + (e3 + rest));
            wire::lemma_dec_enc_u8(s, pos, 1);
            wire::lemma_enc_at(s, pos + 2, e2, e3 + rest);
            wire::lemma_dec_enc_u64(s, pos + 2, x_bits);
            wire::lemma_enc_at(s, pos + 11, e3, rest);
            wire::lemma_dec_enc_u64(s, pos + 11, y_bits);
        },
        KeyEvent::Click { button, state } => {
            let e1 = wire::spec_enc_u8(2);
            let e2 = wire::spec_enc_u8(button);
            let e3 = wire::spec_enc_bool(state);
            assert(s.subrange(pos, s.len() as int) =~= e1 + (e2 + (e3 + rest)));
            wire::lemma_enc_at(s, pos, e1, e2 + (e3 + rest));
            wire::lemma_dec_enc_u8(s, pos, 2);
            wire::lemma_enc_at(s, pos + 2, e2, e3 + rest);
            wire::lemma_dec_enc_u8(s, pos + 2, button);
            wire::lemma_enc_at(s, pos + 4, e3, rest);
            wire::lemma_dec_enc_bool(s, pos + 4, state);
        },
        KeyEvent::GamepadButton { button, state } => {
            let e1 = wire::spec_enc_u8(3);
            let e2 = wire::spec_enc_u8(pad_button_code(button));
            let e3 = wire::spec_enc_u8(state);
            assert(s.subrange(pos, s.len() as int) =~= e1 + (e2 + (e3 + rest)));
            wire::lemma_enc_at(s, pos, e1, e2 + (e3 + rest));
            wire::lemma_dec_enc_u8(s, pos, 3);
            wire::lemma_enc_at(s, pos + 2, e2, e3 + rest);
            wire::lemma_dec_enc_u8(s, pos + 2, pad_button_code(button));
            wire::lemma_enc_at(s, pos + 4, e3, rest);
            wire::lemma_dec_enc_u8(s, pos + 4, state);
            lemma_pad_codes_roundtrip(button, PadAxis::LeftStickX);
        },
        KeyEvent::GamepadAxis { axis, value_bits } => {
            let e1 = wire::spec_enc_u8(4);
            let e2 = wire::spec_enc_u8(pad_axis_code(axis));
            let e3 = wire::spec_enc_u64(value_bits as u64);
            assert(s.subrange(pos, s.len() as int) =~= e1 + (e2 + (e3 + rest)));
            wire::lemma_enc_at(s, pos, e1, e2 + (e3 + rest));
            wire::lemma_dec_enc_u8(s, pos, 4);
            wire::lemma_enc_at(s, pos + 2, e2, e3 + rest);
            wire::lemma_dec_enc_u8(s, pos + 2, pad_axis_code(axis));
            wire::lemma_enc_at(s, pos + 4, e3, rest);
            wire::lemma_dec_enc_u64(s, pos + 4, value_bits as u64);
            lemma_pad_codes_roundtrip(PadButton::North, axis);
        },
    }
}

} // verus!
