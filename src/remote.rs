use vstd::prelude::*;

verus! {

/// Address byte sent by the supported remote control.
pub const REMOTE_ADDRESS: u8 = 0x77;

/// The buttons of the supported remote control.
#[derive(Clone, Copy, Debug, PartialEq, Eq, Structural)]
pub enum RemoteButton {
    Up,
    Down,
    Left,
    Right,
    Select,
    Menu,
    PlayPause,
}

/// The button table: which command each button sends.
pub open spec fn button_spec(address: u8, command: u8) -> Option<RemoteButton> {
    if address != REMOTE_ADDRESS {
        None
    } else if command == 0x0A {
        Some(RemoteButton::Up)
    } else if command == 0x0C {
        Some(RemoteButton::Down)
    } else if command == 0x09 {
        Some(RemoteButton::Left)
    } else if command == 0x06 {
        Some(RemoteButton::Right)
    } else if command == 0x5C {
        Some(RemoteButton::Select)
    } else if command == 0x03 {
        Some(RemoteButton::Menu)
    } else if command == 0x5F {
        Some(RemoteButton::PlayPause)
    } else {
        None
    }
}

/// The button that sends `(address, command)`, if any; an unknown pair is
/// no error, just no button.
pub fn decode_button(address: u8, command: u8) -> (r: Option<RemoteButton>)
    ensures
        r == button_spec(address, command),
{
    if address != REMOTE_ADDRESS {
        return None;
    }
    match command {
        0x0A => Some(RemoteButton::Up),
        0x0C => Some(RemoteButton::Down),
        0x09 => Some(RemoteButton::Left),
        0x06 => Some(RemoteButton::Right),
        0x5C => Some(RemoteButton::Select),
        0x03 => Some(RemoteButton::Menu),
        0x5F => Some(RemoteButton::PlayPause),
        _ => None,
    }
}

} // verus!
