//! The events the decoder emits for the render stage.

use vstd::prelude::*;

verus! {

/// One decoded unit of terminal output, transferred in order from the
/// output pump to the render consumer and consumed exactly once.
#[derive(Clone, Copy, PartialEq, Eq, Debug)]
pub enum RenderEvent {
    /// One printable character, assembled from its encoded bytes.
    Text(char),
    /// The line feed control byte.
    Newline,
    /// The carriage-return control byte.
    CarriageReturn,
    /// The horizontal-tab control byte.
    Tab,
    /// The backspace control byte.
    Backspace,
    /// An erase-in-display control sequence.
    ClearScreen,
}

} // verus!
