//! Input-relay decision logic.
//!
//! The relay runs on the foreground context: it reads discrete key events,
//! translates them to the raw bytes written to the terminal's input side,
//! and decides when the input loop ends.  Reading keys, writing bytes and
//! polling the child process happen at the caller's edge; the translation
//! and the exit decision are verified here.

use vstd::prelude::*;
use vstd::utf8::*;

verus! {

/// One discrete key event from the key-input boundary.
#[derive(Clone, Copy, PartialEq, Eq, Debug)]
pub enum KeyEvent {
    /// A character key.
    Character(char),
    /// The Enter key.
    Enter,
    /// The Backspace key.
    Backspace,
    /// The Escape key.
    Escape,
    /// Any other key.
    Other,
}

/// What the relay does with one key event.
#[derive(Clone, PartialEq, Eq, Debug)]
pub enum RelayAction {
    /// Write these bytes to the terminal's input side, then flush.
    Write(Vec<u8>),
    /// End the input loop and request session shutdown.
    Shutdown,
    /// Do nothing.
    Ignore,
}

/// Encodes one character into the bytes written to the terminal.
fn encode_char(c: char) -> (bytes: Vec<u8>)
    ensures
        bytes@ == encode_scalar(c as u32),
{
    let v: u32 = c as u32;
    let mut bytes: Vec<u8> = Vec::new();
    proof {
        char_is_scalar(c);
    }
    if v <= 0x7f {
        bytes.push((v & 0x7f) as u8);
    } else if v <= 0x7ff {
        bytes.push(0xc0 | (((v >> 6) & 0x1f) as u8));
        bytes.push(0x80 | ((v & 0x3f) as u8));
    } else if v <= 0xffff {
        bytes.push(0xe0 | (((v >> 12) & 0x0f) as u8));
        bytes.push(0x80 | (((v >> 6) & 0x3f) as u8));
        bytes.push(0x80 | ((v & 0x3f) as u8));
    } else {
        bytes.push(0xf0 | (((v >> 18) & 0x7) as u8));
        bytes.push(0x80 | (((v >> 12) & 0x3f) as u8));
        bytes.push(0x80 | (((v >> 6) & 0x3f) as u8));
        bytes.push(0x80 | ((v & 0x3f) as u8));
    }
    proof {
        assert(bytes@ =~= encode_scalar(c as u32));
    }
    bytes
}

/// Decides the relay's next action for one key event, after the poll of
/// the child process.  An exited child ends the loop whatever the key; the
/// Escape key ends it even while the child is alive.  A character key
/// writes the character's encoded bytes, Enter writes a line feed, and
/// Backspace writes the delete byte `0x7f`, not `0x08`, to match shell
/// line editing.
pub fn relay_action(child_exited: bool, key: &KeyEvent) -> (action: RelayAction)
    ensures
        child_exited ==> action is Shutdown,
        !child_exited ==> match *key {
            KeyEvent::Character(c) => action matches RelayAction::Write(bytes) && bytes@
                == encode_scalar(c as u32),
            KeyEvent::Enter => action matches RelayAction::Write(bytes) && bytes@ == seq![0x0au8],
            KeyEvent::Backspace => action matches RelayAction::Write(bytes) && bytes@ == seq![
                0x7fu8,
            ],
            KeyEvent::Escape => action is Shutdown,
            KeyEvent::Other => action is Ignore,
        },
{
    if child_exited {
        return RelayAction::Shutdown;
    }
    match key {
        KeyEvent::Character(c) => RelayAction::Write(encode_char(*c)),
        KeyEvent::Enter => {
            let mut bytes: Vec<u8> = Vec::new();
            bytes.push(0x0a);
            proof {
                assert(bytes@ =~= seq![0x0au8]);
            }
            RelayAction::Write(bytes)
        },
        KeyEvent::Backspace => {
            let mut bytes: Vec<u8> = Vec::new();
            bytes.push(0x7f);
            proof {
                assert(bytes@ =~= seq![0x7fu8]);
            }
            RelayAction::Write(bytes)
        },
        KeyEvent::Escape => RelayAction::Shutdown,
        KeyEvent::Other => RelayAction::Ignore,
    }
}

} // verus!
