use vstd::prelude::*;
use crate::input::{Input, KeyboardInput};

verus! {

/// A logical CHIP-8 key, 0x0 through 0xF.
#[derive(Debug, Clone, Copy, PartialEq, Eq, Hash)]
pub struct Chip8KeyCode(pub u8);

/// The physical input a CHIP-8 key code maps to: the identity layout over
/// numpad 0-9 and the letter keys A-F; codes past 0xF map to no input.
pub open spec fn input_for_key(code: u8) -> Option<Input> {
    if code == 0x0 {
        Some(Input::Keyboard(KeyboardInput::Numpad0))
    } else if code == 0x1 {
        Some(Input::Keyboard(KeyboardInput::Numpad1))
    } else if code == 0x2 {
        Some(Input::Keyboard(KeyboardInput::Numpad2))
    } else if code == 0x3 {
        Some(Input::Keyboard(KeyboardInput::Numpad3))
    } else if code == 0x4 {
        Some(Input::Keyboard(KeyboardInput::Numpad4))
    } else if code == 0x5 {
        Some(Input::Keyboard(KeyboardInput::Numpad5))
    } else if code == 0x6 {
        Some(Input::Keyboard(KeyboardInput::Numpad6))
    } else if code == 0x7 {
        Some(Input::Keyboard(KeyboardInput::Numpad7))
    } else if code == 0x8 {
        Some(Input::Keyboard(KeyboardInput::Numpad8))
    } else if code == 0x9 {
        Some(Input::Keyboard(KeyboardInput::Numpad9))
    } else if code == 0xa {
        Some(Input::Keyboard(KeyboardInput::KeyA))
    } else if code == 0xb {
        Some(Input::Keyboard(KeyboardInput::KeyB))
    } else if code == 0xc {
        Some(Input::Keyboard(KeyboardInput::KeyC))
    } else if code == 0xd {
        Some(Input::Keyboard(KeyboardInput::KeyD))
    } else if code == 0xe {
        Some(Input::Keyboard(KeyboardInput::KeyE))
    } else if code == 0xf {
        Some(Input::Keyboard(KeyboardInput::KeyF))
    } else {
        None
    }
}

/// The CHIP-8 key code a physical input maps to; inputs outside the sixteen
/// mapped keys map to no code.
pub open spec fn key_for_input(input: Input) -> Option<u8> {
    match input {
        Input::Keyboard(KeyboardInput::Numpad0) => Some(0x0u8),
        Input::Keyboard(KeyboardInput::Numpad1) => Some(0x1u8),
        Input::Keyboard(KeyboardInput::Numpad2) => Some(0x2u8),
        Input::Keyboard(KeyboardInput::Numpad3) => Some(0x3u8),
        Input::Keyboard(KeyboardInput::Numpad4) => Some(0x4u8),
        Input::Keyboard(KeyboardInput::Numpad5) => Some(0x5u8),
        Input::Keyboard(KeyboardInput::Numpad6) => Some(0x6u8),
        Input::Keyboard(KeyboardInput::Numpad7) => Some(0x7u8),
        Input::Keyboard(KeyboardInput::Numpad8) => Some(0x8u8),
        Input::Keyboard(KeyboardInput::Numpad9) => Some(0x9u8),
        Input::Keyboard(KeyboardInput::KeyA) => Some(0xau8),
        Input::Keyboard(KeyboardInput::KeyB) => Some(0xbu8),
        Input::Keyboard(KeyboardInput::KeyC) => Some(0xcu8),
        Input::Keyboard(KeyboardInput::KeyD) => Some(0xdu8),
        Input::Keyboard(KeyboardInput::KeyE) => Some(0xeu8),
        Input::Keyboard(KeyboardInput::KeyF) => Some(0xfu8),
        _ => None,
    }
}

impl Chip8KeyCode {
    /// The CHIP-8 key a physical input presses, if any.
    pub fn try_from_input(value: Input) -> (r: Result<Chip8KeyCode, ()>)
        ensures
            r == match key_for_input(value) {
                Some(c) => Result::<Chip8KeyCode, ()>::Ok(Chip8KeyCode(c)),
                None => Result::<Chip8KeyCode, ()>::Err(()),
            },
    {
        match value {
            Input::Keyboard(KeyboardInput::Numpad0) => Ok(Chip8KeyCode(0x0)),
            Input::Keyboard(KeyboardInput::Numpad1) => Ok(Chip8KeyCode(0x1)),
            Input::Keyboard(KeyboardInput::Numpad2) => Ok(Chip8KeyCode(0x2)),
            Input::Keyboard(KeyboardInput::Numpad3) => Ok(Chip8KeyCode(0x3)),
            Input::Keyboard(KeyboardInput::Numpad4) => Ok(Chip8KeyCode(0x4)),
            Input::Keyboard(KeyboardInput::Numpad5) => Ok(Chip8KeyCode(0x5)),
            Input::Keyboard(KeyboardInput::Numpad6) => Ok(Chip8KeyCode(0x6)),
            Input::Keyboard(KeyboardInput::Numpad7) => Ok(Chip8KeyCode(0x7)),
            Input::Keyboard(KeyboardInput::Numpad8) => Ok(Chip8KeyCode(0x8)),
            Input::Keyboard(KeyboardInput::Numpad9) => Ok(Chip8KeyCode(0x9)),
            Input::Keyboard(KeyboardInput::KeyA) => Ok(Chip8KeyCode(0xa)),
            Input::Keyboard(KeyboardInput::KeyB) => Ok(Chip8KeyCode(0xb)),
            Input::Keyboard(KeyboardInput::KeyC) => Ok(Chip8KeyCode(0xc)),
            Input::Keyboard(KeyboardInput::KeyD) => Ok(Chip8KeyCode(0xd)),
            Input::Keyboard(KeyboardInput::KeyE) => Ok(Chip8KeyCode(0xe)),
            Input::Keyboard(KeyboardInput::KeyF) => Ok(Chip8KeyCode(0xf)),
            _ => Err(()),
        }
    }

    /// The physical input that presses this CHIP-8 key, if the code is in
    /// range.
    pub fn try_to_input(&self) -> (r: Result<Input, ()>)
        ensures
            r == match input_for_key(self.0) {
                Some(i) => Result::<Input, ()>::Ok(i),
                None => Result::<Input, ()>::Err(()),
            },
    {
        match self.0 {
            0x0 => Ok(Input::Keyboard(KeyboardInput::Numpad0)),
            0x1 => Ok(Input::Keyboard(KeyboardInput::Numpad1)),
            0x2 => Ok(Input::Keyboard(KeyboardInput::Numpad2)),
            0x3 => Ok(Input::Keyboard(KeyboardInput::Numpad3)),
            0x4 => Ok(Input::Keyboard(KeyboardInput::Numpad4)),
            0x5 => Ok(Input::Keyboard(KeyboardInput::Numpad5)),
            0x6 => Ok(Input::Keyboard(KeyboardInput::Numpad6)),
            0x7 => Ok(Input::Keyboard(KeyboardInput::Numpad7)),
            0x8 => Ok(Input::Keyboard(KeyboardInput::Numpad8)),
            0x9 => Ok(Input::Keyboard(KeyboardInput::Numpad9)),
            0xa => Ok(Input::Keyboard(KeyboardInput::KeyA)),
            0xb => Ok(Input::Keyboard(KeyboardInput::KeyB)),
            0xc => Ok(Input::Keyboard(KeyboardInput::KeyC)),
            0xd => Ok(Input::Keyboard(KeyboardInput::KeyD)),
            0xe => Ok(Input::Keyboard(KeyboardInput::KeyE)),
            0xf => Ok(Input::Keyboard(KeyboardInput::KeyF)),
            _ => Err(()),
        }
    }
}

/// Law: the key map is an identity pairing. Every code 0x0 through 0xF maps
/// to an input that maps back to the same code, and every mapped input maps
/// to a code that maps back to the same input.
pub proof fn lemma_key_map_identity()
    ensures
        forall|c: u8|
            c <= 0xf ==> (#[trigger] input_for_key(c)) is Some && key_for_input(
                input_for_key(c)->0,
            ) == Some(c),
        forall|i: Input|
            (#[trigger] key_for_input(i)) is Some ==> input_for_key(key_for_input(i)->0) == Some(
                i,
            ),
{
}

} // verus!
