//! Render-consumer step logic.
//!
//! The consumer drains the event queue in order and drives an abstract
//! sink with two operations: emit one character (followed by the pacing
//! delay) or clear the display.  The blocking receive, the delay and the
//! real sink live at the caller's edge; this module holds the verified
//! expansion of each event into sink operations.

use vstd::prelude::*;

use crate::event::RenderEvent;

verus! {

/// One operation the render consumer asks of its sink.
#[derive(Clone, Copy, PartialEq, Eq, Debug)]
pub enum SinkOp {
    /// Emit one character at the cursor, then wait the pacing delay.
    EmitCharacter(char),
    /// Clear the display and reset the cursor to the origin.
    ClearAndHome,
}

/// The sink operations one event expands to: every text and control event
/// emits its single character; a clear-screen event clears the display.
pub open spec fn event_ops(e: RenderEvent) -> Seq<SinkOp> {
    match e {
        RenderEvent::Text(c) => seq![SinkOp::EmitCharacter(c)],
        RenderEvent::Newline => seq![SinkOp::EmitCharacter('\n')],
        RenderEvent::CarriageReturn => seq![SinkOp::EmitCharacter('\r')],
        RenderEvent::Tab => seq![SinkOp::EmitCharacter('\t')],
        RenderEvent::Backspace => seq![SinkOp::EmitCharacter('\u{8}')],
        RenderEvent::ClearScreen => seq![SinkOp::ClearAndHome],
    }
}

/// Expands one received event into the operations for the sink, appended
/// to `out` in order, following [`event_ops`] exactly.
pub fn render_event(e: &RenderEvent, out: &mut Vec<SinkOp>)
    ensures
        final(out)@ == old(out)@ + event_ops(*e),
{
    let op: SinkOp = match e {
        RenderEvent::Text(c) => SinkOp::EmitCharacter(*c),
        RenderEvent::Newline => SinkOp::EmitCharacter('\n'),
        RenderEvent::CarriageReturn => SinkOp::EmitCharacter('\r'),
        RenderEvent::Tab => SinkOp::EmitCharacter('\t'),
        RenderEvent::Backspace => SinkOp::EmitCharacter('\u{8}'),
        RenderEvent::ClearScreen => SinkOp::ClearAndHome,
    };
    out.push(op);
    proof {
        assert(out@ =~= old(out)@ + event_ops(*e));
    }
}

} // verus!
