use vstd::prelude::*;

verus! {

/// Physical keyboard inputs the emulator distinguishes.
#[derive(Copy, Clone, Debug, PartialEq, Eq, PartialOrd, Ord, Hash)]
pub enum KeyboardInput {
    Numpad0,
    Numpad1,
    Numpad2,
    Numpad3,
    Numpad4,
    Numpad5,
    Numpad6,
    Numpad7,
    Numpad8,
    Numpad9,
    KeyA,
    KeyB,
    KeyC,
    KeyD,
    KeyE,
    KeyF,
    Space,
    Enter,
    Escape,
}

/// Physical gamepad inputs the emulator distinguishes.
#[derive(Copy, Clone, Debug, PartialEq, Eq, PartialOrd, Ord, Hash)]
pub enum GamepadInput {
    DPadUp,
    DPadDown,
    DPadLeft,
    DPadRight,
    FaceButtonUp,
    FaceButtonDown,
    FaceButtonLeft,
    FaceButtonRight,
    Start,
    Select,
}

/// A physical input: a gamepad element or a keyboard key.
#[derive(Copy, Clone, Debug, PartialEq, Eq, PartialOrd, Ord, Hash)]
pub enum Input {
    Gamepad(GamepadInput),
    Keyboard(KeyboardInput),
}

/// Every input, gamepad elements first, in declaration order.
pub open spec fn all_inputs() -> Seq<Input> {
    seq![
        Input::Gamepad(GamepadInput::DPadUp),
        Input::Gamepad(GamepadInput::DPadDown),
        Input::Gamepad(GamepadInput::DPadLeft),
        Input::Gamepad(GamepadInput::DPadRight),
        Input::Gamepad(GamepadInput::FaceButtonUp),
        Input::Gamepad(GamepadInput::FaceButtonDown),
        Input::Gamepad(GamepadInput::FaceButtonLeft),
        Input::Gamepad(GamepadInput::FaceButtonRight),
        Input::Gamepad(GamepadInput::Start),
        Input::Gamepad(GamepadInput::Select),
        Input::Keyboard(KeyboardInput::Numpad0),
        Input::Keyboard(KeyboardInput::Numpad1),
        Input::Keyboard(KeyboardInput::Numpad2),
        Input::Keyboard(KeyboardInput::Numpad3),
        Input::Keyboard(KeyboardInput::Numpad4),
        Input::Keyboard(KeyboardInput::Numpad5),
        Input::Keyboard(KeyboardInput::Numpad6),
        Input::Keyboard(KeyboardInput::Numpad7),
        Input::Keyboard(KeyboardInput::Numpad8),
        Input::Keyboard(KeyboardInput::Numpad9),
        Input::Keyboard(KeyboardInput::KeyA),
        Input::Keyboard(KeyboardInput::KeyB),
        Input::Keyboard(KeyboardInput::KeyC),
        Input::Keyboard(KeyboardInput::KeyD),
        Input::Keyboard(KeyboardInput::KeyE),
        Input::Keyboard(KeyboardInput::KeyF),
        Input::Keyboard(KeyboardInput::Space),
        Input::Keyboard(KeyboardInput::Enter),
        Input::Keyboard(KeyboardInput::Escape),
    ]
}

impl Input {
    /// Every input the emulator distinguishes, gamepad elements first.
    pub fn iter() -> (r: Vec<Input>)
        ensures
            r@ == all_inputs(),
    {
        let mut r: Vec<Input> = Vec::new();
        r.push(Input::Gamepad(GamepadInput::DPadUp));
        r.push(Input::Gamepad(GamepadInput::DPadDown));
        r.push(Input::Gamepad(GamepadInput::DPadLeft));
        r.push(Input::Gamepad(GamepadInput::DPadRight));
        r.push(Input::Gamepad(GamepadInput::FaceButtonUp));
        r.push(Input::Gamepad(GamepadInput::FaceButtonDown));
        r.push(Input::Gamepad(GamepadInput::FaceButtonLeft));
        r.push(Input::Gamepad(GamepadInput::FaceButtonRight));
        r.push(Input::Gamepad(GamepadInput::Start));
        r.push(Input::Gamepad(GamepadInput::Select));
        r.push(Input::Keyboard(KeyboardInput::Numpad0));
        r.push(Input::Keyboard(KeyboardInput::Numpad1));
        r.push(Input::Keyboard(KeyboardInput::Numpad2));
        r.push(Input::Keyboard(KeyboardInput::Numpad3));
        r.push(Input::Keyboard(KeyboardInput::Numpad4));
        r.push(Input::Keyboard(KeyboardInput::Numpad5));
        r.push(Input::Keyboard(KeyboardInput::Numpad6));
        r.push(Input::Keyboard(KeyboardInput::Numpad7));
        r.push(Input::Keyboard(KeyboardInput::Numpad8));
        r.push(Input::Keyboard(KeyboardInput::Numpad9));
        r.push(Input::Keyboard(KeyboardInput::KeyA));
        r.push(Input::Keyboard(KeyboardInput::KeyB));
        r.push(Input::Keyboard(KeyboardInput::KeyC));
        r.push(Input::Keyboard(KeyboardInput::KeyD));
        r.push(Input::Keyboard(KeyboardInput::KeyE));
        r.push(Input::Keyboard(KeyboardInput::KeyF));
        r.push(Input::Keyboard(KeyboardInput::Space));
        r.push(Input::Keyboard(KeyboardInput::Enter));
        r.push(Input::Keyboard(KeyboardInput::Escape));
        proof {
            assert(r@ =~= all_inputs());
        }
        r
    }
}

/// Which attached gamepad an input event came from.
#[derive(Copy, Clone, Debug, PartialEq, Eq, PartialOrd, Ord, Hash)]
pub struct GamepadId(pub u8);

} // verus!
