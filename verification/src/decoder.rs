//! Byte-driven escape-sequence decoder.
//!
//! The decoder classifies an incoming byte stream into printable characters,
//! a handful of control bytes, and a narrow set of control sequences.  Every
//! byte value has a defined transition in every mode, so malformed or
//! unsupported input is absorbed as a no-op and never desynchronises the
//! stream.  The functions [`step_mode`] and [`step_event`] are the
//! mathematical transition relation; [`Decoder::feed_byte`] and
//! [`Decoder::feed`] are proved to follow it exactly.

use vstd::prelude::*;
use vstd::utf8::*;

use crate::event::RenderEvent;

verus! {

/// The decoder's parse mode.  Printable characters encoded with several
/// bytes carry the bytes seen so far in the mode itself, so the transition
/// relation is a pure function of the mode and the next byte.
#[derive(Clone, Copy, PartialEq, Eq, Debug)]
pub enum Mode {
    /// Plain output: printable characters and control bytes.
    Ground,
    /// An escape introducer has been seen.
    Escape,
    /// Inside a control sequence: parameter and intermediate bytes are
    /// absorbed until a final byte dispatches the sequence.
    Csi,
    /// Inside an operating-system-command sequence, absorbed up to its
    /// terminator.
    Osc,
    /// An escape introducer seen inside an operating-system-command
    /// sequence: the first half of a string terminator.
    OscEscape,
    /// Waiting for the last byte of a two-byte encoded character.
    TwoByteLast { b1: u8 },
    /// Waiting for the middle byte of a three-byte encoded character.
    ThreeByteMiddle { b1: u8 },
    /// Waiting for the last byte of a three-byte encoded character.
    ThreeByteLast { b1: u8, b2: u8 },
    /// Waiting for the second byte of a four-byte encoded character.
    FourByteSecond { b1: u8 },
    /// Waiting for the third byte of a four-byte encoded character.
    FourByteThird { b1: u8, b2: u8 },
    /// Waiting for the last byte of a four-byte encoded character.
    FourByteLast { b1: u8, b2: u8, b3: u8 },
}

/// A printable single-byte character.
pub open spec fn is_printable(b: u8) -> bool {
    0x20 <= b <= 0x7e
}

/// Mode reached from `Ground` on byte `b`.  Multi-byte leading bytes open
/// the matching assembly mode; stray continuation bytes and invalid leading
/// bytes are ignored.
pub open spec fn ground_mode(b: u8) -> Mode {
    if b == 0x1b {
        Mode::Escape
    } else if is_leading_byte_width_2(b) {
        Mode::TwoByteLast { b1: b }
    } else if is_leading_byte_width_3(b) {
        Mode::ThreeByteMiddle { b1: b }
    } else if is_leading_byte_width_4(b) {
        Mode::FourByteSecond { b1: b }
    } else {
        Mode::Ground
    }
}

/// Event emitted from `Ground` on byte `b`: printable characters become
/// `Text`, four control bytes have events of their own, everything else is
/// silently ignored.
pub open spec fn ground_event(b: u8) -> Option<RenderEvent> {
    if is_printable(b) {
        Some(RenderEvent::Text(b as char))
    } else if b == 0x0a {
        Some(RenderEvent::Newline)
    } else if b == 0x0d {
        Some(RenderEvent::CarriageReturn)
    } else if b == 0x09 {
        Some(RenderEvent::Tab)
    } else if b == 0x08 {
        Some(RenderEvent::Backspace)
    } else {
        None
    }
}

/// Mode reached from `Escape`: `[` opens a control sequence, `]` an
/// operating-system command; any other byte completes a single-character
/// escape sequence without an event.
pub open spec fn escape_mode(b: u8) -> Mode {
    if b == 0x5b {
        Mode::Csi
    } else if b == 0x5d {
        Mode::Osc
    } else if b == 0x1b {
        Mode::Escape
    } else {
        Mode::Ground
    }
}

/// Mode reached from `Csi`: a final byte in `'@'..='~'` dispatches the
/// sequence; an escape introducer aborts it; parameter and intermediate
/// bytes are absorbed.
pub open spec fn csi_mode(b: u8) -> Mode {
    if b == 0x1b {
        Mode::Escape
    } else if 0x40 <= b <= 0x7e {
        Mode::Ground
    } else {
        Mode::Csi
    }
}

/// Event emitted when a control sequence dispatches: only the
/// erase-in-display final byte `J` is actionable.
pub open spec fn csi_event(b: u8) -> Option<RenderEvent> {
    if b == 0x4a {
        Some(RenderEvent::ClearScreen)
    } else {
        None
    }
}

/// Mode reached from `Osc`: a bell terminates the command, an escape
/// introducer may begin a string terminator, everything else is absorbed.
pub open spec fn osc_mode(b: u8) -> Mode {
    if b == 0x07 {
        Mode::Ground
    } else if b == 0x1b {
        Mode::OscEscape
    } else {
        Mode::Osc
    }
}

/// Mode reached from `OscEscape`: a backslash completes the string
/// terminator, anything else is handled as if seen inside the command.
pub open spec fn osc_escape_mode(b: u8) -> Mode {
    if b == 0x5c {
        Mode::Ground
    } else {
        osc_mode(b)
    }
}

/// Event for a fully assembled multi-byte character: the codepoint becomes
/// `Text` when its encoding was minimal for its width and it is not a
/// surrogate; otherwise the bytes are absorbed without an event.
pub open spec fn scalar_event(cp: u32, len: int) -> Option<RenderEvent> {
    if not_overlong_encoding(cp, len) && not_surrogate(cp) {
        Some(RenderEvent::Text(cp as char))
    } else {
        None
    }
}

/// The decoder's transition function: the mode after byte `b` in mode `m`.
/// It is total, so no byte ever lacks a defined next mode.
pub open spec fn step_mode(m: Mode, b: u8) -> Mode {
    match m {
        Mode::Ground => ground_mode(b),
        Mode::Escape => escape_mode(b),
        Mode::Csi => csi_mode(b),
        Mode::Osc => osc_mode(b),
        Mode::OscEscape => osc_escape_mode(b),
        Mode::TwoByteLast { b1 } => if is_continuation_byte(b) {
            Mode::Ground
        } else {
            ground_mode(b)
        },
        Mode::ThreeByteMiddle { b1 } => if is_continuation_byte(b) {
            Mode::ThreeByteLast { b1, b2: b }
        } else {
            ground_mode(b)
        },
        Mode::ThreeByteLast { b1, b2 } => if is_continuation_byte(b) {
            Mode::Ground
        } else {
            ground_mode(b)
        },
        Mode::FourByteSecond { b1 } => if is_continuation_byte(b) {
            Mode::FourByteThird { b1, b2: b }
        } else {
            ground_mode(b)
        },
        Mode::FourByteThird { b1, b2 } => if is_continuation_byte(b) {
            Mode::FourByteLast { b1, b2, b3: b }
        } else {
            ground_mode(b)
        },
        Mode::FourByteLast { b1, b2, b3 } => if is_continuation_byte(b) {
            Mode::Ground
        } else {
            ground_mode(b)
        },
    }
}

/// The event, if any, emitted on byte `b` in mode `m`.  A byte that aborts a
/// multi-byte character is reprocessed as plain output, so it is never
/// silently dropped.
pub open spec fn step_event(m: Mode, b: u8) -> Option<RenderEvent> {
    match m {
        Mode::Ground => ground_event(b),
        Mode::Escape => None,
        Mode::Csi => if b == 0x1b {
            None
        } else if 0x40 <= b <= 0x7e {
            csi_event(b)
        } else {
            None
        },
        Mode::Osc => None,
        Mode::OscEscape => None,
        Mode::TwoByteLast { b1 } => if is_continuation_byte(b) {
            scalar_event(codepoint_width_2(b1, b), 2)
        } else {
            ground_event(b)
        },
        Mode::ThreeByteMiddle { b1 } => if is_continuation_byte(b) {
            None
        } else {
            ground_event(b)
        },
        Mode::ThreeByteLast { b1, b2 } => if is_continuation_byte(b) {
            scalar_event(codepoint_width_3(b1, b2, b), 3)
        } else {
            ground_event(b)
        },
        Mode::FourByteSecond { b1 } => if is_continuation_byte(b) {
            None
        } else {
            ground_event(b)
        },
        Mode::FourByteThird { b1, b2 } => if is_continuation_byte(b) {
            None
        } else {
            ground_event(b)
        },
        Mode::FourByteLast { b1, b2, b3 } => if is_continuation_byte(b) {
            scalar_event(codepoint_width_4(b1, b2, b3, b), 4)
        } else {
            ground_event(b)
        },
    }
}

/// The events of one step as a sequence of length zero or one.
pub open spec fn opt_events(ev: Option<RenderEvent>) -> Seq<RenderEvent> {
    match ev {
        Some(e) => seq![e],
        None => seq![],
    }
}

/// The mode after decoding all of `bs` starting in mode `m`.
pub open spec fn decode_mode(m: Mode, bs: Seq<u8>) -> Mode
    decreases bs.len(),
{
    if bs.len() == 0 {
        m
    } else {
        decode_mode(step_mode(m, bs[0]), bs.drop_first())
    }
}

/// The events emitted while decoding all of `bs` starting in mode `m`, in
/// the order of the bytes that produced them.
pub open spec fn decode_events(m: Mode, bs: Seq<u8>) -> Seq<RenderEvent>
    decreases bs.len(),
{
    if bs.len() == 0 {
        seq![]
    } else {
        opt_events(step_event(m, bs[0])) + decode_events(step_mode(m, bs[0]), bs.drop_first())
    }
}

/// Relies on `char::from_u32`: the standard library documents that it
/// returns the character with the given code value for exactly the valid
/// Unicode scalar values, and `None` for surrogates and values above the
/// Unicode range.
pub assume_specification[ char::from_u32 ](v: u32) -> (r: Option<char>)
    ensures
        r is Some <==> is_scalar(v),
        r matches Some(c) ==> c as u32 == v,
;

/// Turns an assembled codepoint of a `len`-byte encoding into its event,
/// following [`scalar_event`] exactly.
fn codepoint_to_event(cp: u32, len: usize) -> (ev: Option<RenderEvent>)
    requires
        len == 2 || len == 3 || len == 4,
        len == 2 ==> cp <= 0x7ff,
        len == 3 ==> cp <= 0xffff,
    ensures
        ev == scalar_event(cp, len as int),
{
    let admissible: bool = if len == 2 {
        cp >= 0x80
    } else if len == 3 {
        cp >= 0x800 && !(0xd800 <= cp && cp <= 0xdfff)
    } else {
        0x10000 <= cp && cp <= 0x10ffff
    };
    if admissible {
        match char::from_u32(cp) {
            Some(c) => {
                proof {
                    char_u32_cast(c, cp);
                }
                Some(RenderEvent::Text(c))
            },
            None => {
                proof {
                    assert(is_scalar(cp));
                    assert(false);
                }
                None
            },
        }
    } else {
        None
    }
}

/// One step from `Ground`, following [`ground_mode`] and [`ground_event`].
fn step_ground(b: u8) -> (r: (Mode, Option<RenderEvent>))
    ensures
        r.0 == ground_mode(b),
        r.1 == ground_event(b),
{
    if 0x20 <= b && b <= 0x7e {
        (Mode::Ground, Some(RenderEvent::Text(b as char)))
    } else if b == 0x0a {
        (Mode::Ground, Some(RenderEvent::Newline))
    } else if b == 0x0d {
        (Mode::Ground, Some(RenderEvent::CarriageReturn))
    } else if b == 0x09 {
        (Mode::Ground, Some(RenderEvent::Tab))
    } else if b == 0x08 {
        (Mode::Ground, Some(RenderEvent::Backspace))
    } else if b == 0x1b {
        (Mode::Escape, None)
    } else if 0xc0 <= b && b <= 0xdf {
        (Mode::TwoByteLast { b1: b }, None)
    } else if 0xe0 <= b && b <= 0xef {
        (Mode::ThreeByteMiddle { b1: b }, None)
    } else if 0xf0 <= b && b <= 0xf7 {
        (Mode::FourByteSecond { b1: b }, None)
    } else {
        (Mode::Ground, None)
    }
}

/// The escape-sequence decoder: a total state machine over bytes.
pub struct Decoder {
    /// The current parse mode.
    pub mode: Mode,
}

impl Decoder {
    /// A fresh decoder in the ground mode.
    pub fn new() -> (d: Decoder)
        ensures
            d.mode == Mode::Ground,
    {
        Decoder { mode: Mode::Ground }
    }

    /// Advances the decoder by one byte, returning the event that byte
    /// produced, if any.  The transition follows [`step_mode`] and
    /// [`step_event`] exactly, so decoding never fails and never drops a
    /// byte without a defined transition.
    pub fn feed_byte(&mut self, b: u8) -> (ev: Option<RenderEvent>)
        ensures
            final(self).mode == step_mode(old(self).mode, b),
            ev == step_event(old(self).mode, b),
    {
        let (next, ev): (Mode, Option<RenderEvent>) = match self.mode {
            Mode::Ground => step_ground(b),
            Mode::Escape => {
                if b == 0x5b {
                    (Mode::Csi, None)
                } else if b == 0x5d {
                    (Mode::Osc, None)
                } else if b == 0x1b {
                    (Mode::Escape, None)
                } else {
                    (Mode::Ground, None)
                }
            },
            Mode::Csi => {
                if b == 0x1b {
                    (Mode::Escape, None)
                } else if 0x40 <= b && b <= 0x7e {
                    if b == 0x4a {
                        (Mode::Ground, Some(RenderEvent::ClearScreen))
                    } else {
                        (Mode::Ground, None)
                    }
                } else {
                    (Mode::Csi, None)
                }
            },
            Mode::Osc => {
                if b == 0x07 {
                    (Mode::Ground, None)
                } else if b == 0x1b {
                    (Mode::OscEscape, None)
                } else {
                    (Mode::Osc, None)
                }
            },
            Mode::OscEscape => {
                if b == 0x5c {
                    (Mode::Ground, None)
                } else if b == 0x07 {
                    (Mode::Ground, None)
                } else if b == 0x1b {
                    (Mode::OscEscape, None)
                } else {
                    (Mode::Osc, None)
                }
            },
            Mode::TwoByteLast { b1 } => {
                if 0x80 <= b && b <= 0xbf {
                    let cp: u32 = (((b1 & 0x1f) as u32) << 6) | ((b & 0x3f) as u32);
                    proof {
                        assert((((b1 & 0x1f) as u32) << 6) | ((b & 0x3f) as u32) <= 0x7ff)
                            by (bit_vector);
                    }
                    (Mode::Ground, codepoint_to_event(cp, 2))
                } else {
                    step_ground(b)
                }
            },
            Mode::ThreeByteMiddle { b1 } => {
                if 0x80 <= b && b <= 0xbf {
                    (Mode::ThreeByteLast { b1, b2: b }, None)
                } else {
                    step_ground(b)
                }
            },
            Mode::ThreeByteLast { b1, b2 } => {
                if 0x80 <= b && b <= 0xbf {
                    let cp: u32 = (((b1 & 0x0f) as u32) << 12) | (((b2 & 0x3f) as u32) << 6)
                        | ((b & 0x3f) as u32);
                    proof {
                        assert((((b1 & 0x0f) as u32) << 12) | (((b2 & 0x3f) as u32) << 6) | ((b
                            & 0x3f) as u32) <= 0xffff) by (bit_vector);
                    }
                    (Mode::Ground, codepoint_to_event(cp, 3))
                } else {
                    step_ground(b)
                }
            },
            Mode::FourByteSecond { b1 } => {
                if 0x80 <= b && b <= 0xbf {
                    (Mode::FourByteThird { b1, b2: b }, None)
                } else {
                    step_ground(b)
                }
            },
            Mode::FourByteThird { b1, b2 } => {
                if 0x80 <= b && b <= 0xbf {
                    (Mode::FourByteLast { b1, b2, b3: b }, None)
                } else {
                    step_ground(b)
                }
            },
            Mode::FourByteLast { b1, b2, b3 } => {
                if 0x80 <= b && b <= 0xbf {
                    let cp: u32 = (((b1 & 0x07) as u32) << 18) | (((b2 & 0x3f) as u32) << 12) | (((
                    b3 & 0x3f) as u32) << 6) | ((b & 0x3f) as u32);
                    (Mode::Ground, codepoint_to_event(cp, 4))
                } else {
                    step_ground(b)
                }
            },
        };
        self.mode = next;
        ev
    }

    /// Feeds a whole chunk of bytes, appending every event the bytes
    /// produce, in byte order, to `out`.
    pub fn feed(&mut self, bytes: &[u8], out: &mut Vec<RenderEvent>)
        ensures
            final(self).mode == decode_mode(old(self).mode, bytes@),
            final(out)@ == old(out)@ + decode_events(old(self).mode, bytes@),
    {
        let ghost m0 = self.mode;
        let ghost out0 = out@;
        let mut i: usize = 0;
        while i < bytes.len()
            invariant
                i <= bytes@.len(),
                self.mode == decode_mode(m0, bytes@.take(i as int)),
                out@ == out0 + decode_events(m0, bytes@.take(i as int)),
            decreases bytes@.len() - i,
        {
            let b = bytes[i];
            let ev = self.feed_byte(b);
            match ev {
                Some(e) => out.push(e),
                None => {},
            }
            proof {
                lemma_decode_take_step(m0, bytes@, i as int);
            }
            i = i + 1;
        }
        proof {
            assert(bytes@.take(bytes@.len() as int) =~= bytes@);
        }
    }
}

/// Decoding distributes over concatenation: the mode and events of `a + b`
/// are those of `a` followed by those of `b` decoded from where `a` left
/// off.  However a byte stream is split into chunks, the events come out in
/// the order of the underlying bytes.
pub proof fn lemma_decode_append(m: Mode, a: Seq<u8>, b: Seq<u8>)
    ensures
        decode_mode(m, a + b) == decode_mode(decode_mode(m, a), b),
        decode_events(m, a + b) == decode_events(m, a) + decode_events(decode_mode(m, a), b),
    decreases a.len(),
{
    if a.len() == 0 {
        assert(a + b =~= b);
        assert(decode_events(m, a) + decode_events(m, b) =~= decode_events(m, b));
    } else {
        let m1 = step_mode(m, a[0]);
        assert((a + b)[0] == a[0]);
        assert((a + b).drop_first() =~= a.drop_first() + b);
        lemma_decode_append(m1, a.drop_first(), b);
        assert(opt_events(step_event(m, a[0])) + (decode_events(m1, a.drop_first())
            + decode_events(decode_mode(m1, a.drop_first()), b)) =~= (opt_events(
            step_event(m, a[0]),
        ) + decode_events(m1, a.drop_first())) + decode_events(
            decode_mode(m1, a.drop_first()),
            b,
        ));
    }
}

/// Decoding a single byte is one step of the transition relation.
pub proof fn lemma_decode_one(m: Mode, b: u8)
    ensures
        decode_mode(m, seq![b]) == step_mode(m, b),
        decode_events(m, seq![b]) == opt_events(step_event(m, b)),
{
    let one = seq![b];
    let m2 = step_mode(m, b);
    assert(one[0] == b);
    assert(one.drop_first() =~= Seq::<u8>::empty());
    assert(decode_mode(m, one) == decode_mode(m2, one.drop_first()));
    assert(one.drop_first().len() == 0);
    assert(decode_mode(m2, one.drop_first()) == m2);
    assert(decode_events(m, one) == opt_events(step_event(m, b)) + decode_events(
        m2,
        one.drop_first(),
    ));
    assert(decode_events(m2, one.drop_first()) =~= Seq::<RenderEvent>::empty());
    assert(decode_events(m, one) =~= opt_events(step_event(m, b)));
}

/// One more byte of a prefix: decoding `s.take(i + 1)` is decoding
/// `s.take(i)` and then stepping on `s[i]`.
pub proof fn lemma_decode_take_step(m: Mode, s: Seq<u8>, i: int)
    requires
        0 <= i < s.len(),
    ensures
        decode_mode(m, s.take(i + 1)) == step_mode(decode_mode(m, s.take(i)), s[i]),
        decode_events(m, s.take(i + 1)) == decode_events(m, s.take(i)) + opt_events(
            step_event(decode_mode(m, s.take(i)), s[i]),
        ),
{
    let one = seq![s[i]];
    assert(s.take(i + 1) =~= s.take(i) + one);
    lemma_decode_append(m, s.take(i), one);
    let mi = decode_mode(m, s.take(i));
    lemma_decode_one(mi, s[i]);
}

/// The characters carried by the `Text` events of a sequence, concatenated
/// in event order.
pub open spec fn emitted_text(es: Seq<RenderEvent>) -> Seq<char>
    decreases es.len(),
{
    if es.len() == 0 {
        seq![]
    } else {
        (match es[0] {
            RenderEvent::Text(c) => seq![c],
            _ => seq![],
        }) + emitted_text(es.drop_first())
    }
}

/// Printable bytes round-trip through the decoder: from the ground mode, a
/// stream of printable bytes emits one `Text` event per byte, in byte
/// order, and the emitted characters spell the original bytes exactly.
pub proof fn lemma_printable_round_trip(bs: Seq<u8>)
    requires
        forall|i: int| 0 <= i < bs.len() ==> is_printable(#[trigger] bs[i]),
    ensures
        decode_mode(Mode::Ground, bs) == Mode::Ground,
        decode_events(Mode::Ground, bs) == bs.map_values(|b: u8| RenderEvent::Text(b as char)),
        emitted_text(decode_events(Mode::Ground, bs)).map_values(|c: char| c as u8) == bs,
    decreases bs.len(),
{
    if bs.len() == 0 {
        assert(bs.map_values(|b: u8| RenderEvent::Text(b as char)) =~= Seq::<
            RenderEvent,
        >::empty());
        assert(emitted_text(decode_events(Mode::Ground, bs)).map_values(|c: char| c as u8)
            =~= bs);
    } else {
        let b0 = bs[0];
        let rest = bs.drop_first();
        assert(is_printable(b0));
        assert(step_mode(Mode::Ground, b0) == Mode::Ground);
        assert(step_event(Mode::Ground, b0) == Some(RenderEvent::Text(b0 as char)));
        assert(forall|i: int|
            0 <= i < rest.len() ==> is_printable(#[trigger] rest[i]) && rest[i] == bs[i + 1]);
        lemma_printable_round_trip(rest);
        let es = decode_events(Mode::Ground, bs);
        assert(es == seq![RenderEvent::Text(b0 as char)] + decode_events(Mode::Ground, rest));
        assert(es =~= bs.map_values(|b: u8| RenderEvent::Text(b as char)));
        assert(es.len() > 0 && es[0] == RenderEvent::Text(b0 as char));
        assert(es.drop_first() =~= decode_events(Mode::Ground, rest));
        assert(emitted_text(es) == seq![b0 as char] + emitted_text(decode_events(
            Mode::Ground,
            rest,
        )));
        assert((b0 as char) as u8 == b0);
        let mapped = emitted_text(decode_events(Mode::Ground, rest)).map_values(
            |c: char| c as u8,
        );
        assert(forall|i: int| 0 <= i < rest.len() ==> rest[i] == #[trigger] mapped[i]);
        let full = emitted_text(es).map_values(|c: char| c as u8);
        assert(full.len() == bs.len());
        assert(emitted_text(es)[0] == b0 as char);
        assert(full[0] == b0);
        assert(forall|i: int|
            1 <= i < bs.len() ==> #[trigger] emitted_text(es)[i] == emitted_text(
                decode_events(Mode::Ground, rest),
            )[i - 1]);
        assert(forall|i: int| 1 <= i < bs.len() ==> #[trigger] full[i] == mapped[i - 1]);
        assert(forall|i: int| 1 <= i < bs.len() ==> #[trigger] full[i] == bs[i]);
        assert(full =~= bs);
    }
}

/// A character echoed by the shell comes back intact: decoding the UTF-8
/// encoding of `c` from the ground mode emits exactly `Text(c)` and
/// returns to the ground mode, for every character that is not itself a
/// control byte (code at least `0x20` and not the delete byte).
pub proof fn lemma_echo_round_trip(c: char)
    requires
        0x20 <= c as u32,
        c as u32 != 0x7f,
    ensures
        decode_mode(Mode::Ground, encode_scalar(c as u32)) == Mode::Ground,
        decode_events(Mode::Ground, encode_scalar(c as u32)) == seq![RenderEvent::Text(c)],
{
    let v: u32 = c as u32;
    char_is_scalar(c);
    char_u32_cast(c, v);
    if v <= 0x7f {
        let b: u8 = (v & 0x7F) as u8;
        assert((b as u32) == v && 0x20 <= b && b <= 0x7e) by (bit_vector)
            requires
                b == (v & 0x7F) as u8,
                0x20 <= v && v <= 0x7e,
        ;
        assert(encode_scalar(v) == seq![b]);
        lemma_decode_one(Mode::Ground, b);
        assert(ground_mode(b) == Mode::Ground);
        assert(ground_event(b) == Some(RenderEvent::Text(b as char)));
        assert(b as char == c);
        assert(opt_events(Some(RenderEvent::Text(c))) =~= seq![RenderEvent::Text(c)]);
    } else if v <= 0x7ff {
        let l: u8 = leading_byte_width_2(v);
        let t: u8 = last_continuation_byte(v);
        assert(0xc0 <= l && l <= 0xdf && 0x80 <= t && t <= 0xbf && ((((l & 0x1F) as u32) << 6) | (
        (t & 0x3f) as u32)) == v) by (bit_vector)
            requires
                l == 0xC0 | ((v >> 6) & 0x1F) as u8,
                t == 0x80 | (v & 0x3F) as u8,
                0x80 <= v && v <= 0x7ff,
        ;
        assert(encode_scalar(v) == seq![l, t]);
        lemma_decode_one(Mode::Ground, l);
        lemma_decode_append(Mode::Ground, seq![l], seq![t]);
        lemma_decode_one(Mode::TwoByteLast { b1: l }, t);
        assert(seq![l] + seq![t] =~= seq![l, t]);
        assert(ground_mode(l) == Mode::TwoByteLast { b1: l });
        assert(codepoint_width_2(l, t) == v);
        assert(step_event(Mode::TwoByteLast { b1: l }, t) == scalar_event(v, 2));
        assert(scalar_event(v, 2) == Some(RenderEvent::Text(c)));
        assert(decode_events(Mode::Ground, seq![l, t]) =~= seq![RenderEvent::Text(c)]);
    } else if v <= 0xffff {
        let l: u8 = leading_byte_width_3(v);
        let s: u8 = second_last_continuation_byte(v);
        let t: u8 = last_continuation_byte(v);
        assert(0xe0 <= l && l <= 0xef && 0x80 <= s && s <= 0xbf && 0x80 <= t && t <= 0xbf && ((((l
            & 0x0F) as u32) << 12) | (((s & 0x3f) as u32) << 6) | ((t & 0x3f) as u32)) == v)
            by (bit_vector)
            requires
                l == 0xE0 | ((v >> 12) & 0x0F) as u8,
                s == 0x80 | ((v >> 6) & 0x3F) as u8,
                t == 0x80 | (v & 0x3F) as u8,
                0x800 <= v && v <= 0xffff,
        ;
        assert(has_width_3_encoding(v));
        assert(encode_scalar(v) == seq![l, s, t]);
        let a2 = seq![l] + seq![s];
        lemma_decode_one(Mode::Ground, l);
        lemma_decode_append(Mode::Ground, seq![l], seq![s]);
        lemma_decode_one(Mode::ThreeByteMiddle { b1: l }, s);
        lemma_decode_append(Mode::Ground, a2, seq![t]);
        lemma_decode_one(Mode::ThreeByteLast { b1: l, b2: s }, t);
        assert(a2 + seq![t] =~= seq![l, s, t]);
        assert(ground_mode(l) == Mode::ThreeByteMiddle { b1: l });
        assert(codepoint_width_3(l, s, t) == v);
        assert(scalar_event(v, 3) == Some(RenderEvent::Text(c)));
        assert(decode_events(Mode::Ground, seq![l, s, t]) =~= seq![RenderEvent::Text(c)]);
    } else {
        let l: u8 = leading_byte_width_4(v);
        let r: u8 = third_last_continuation_byte(v);
        let s: u8 = second_last_continuation_byte(v);
        let t: u8 = last_continuation_byte(v);
        assert(0xf0 <= l && l <= 0xf7 && 0x80 <= r && r <= 0xbf && 0x80 <= s && s <= 0xbf && 0x80
            <= t && t <= 0xbf && ((((l & 0x07) as u32) << 18) | (((r & 0x3f) as u32) << 12) | (((s
            & 0x3f) as u32) << 6) | ((t & 0x3f) as u32)) == v) by (bit_vector)
            requires
                l == 0xF0 | ((v >> 18) & 0x7) as u8,
                r == 0x80 | ((v >> 12) & 0x3F) as u8,
                s == 0x80 | ((v >> 6) & 0x3F) as u8,
                t == 0x80 | (v & 0x3F) as u8,
                0x10000 <= v && v <= 0x10ffff,
        ;
        assert(has_width_4_encoding(v));
        assert(encode_scalar(v) == seq![l, r, s, t]);
        let a2 = seq![l] + seq![r];
        let a3 = a2 + seq![s];
        lemma_decode_one(Mode::Ground, l);
        lemma_decode_append(Mode::Ground, seq![l], seq![r]);
        lemma_decode_one(Mode::FourByteSecond { b1: l }, r);
        lemma_decode_append(Mode::Ground, a2, seq![s]);
        lemma_decode_one(Mode::FourByteThird { b1: l, b2: r }, s);
        lemma_decode_append(Mode::Ground, a3, seq![t]);
        lemma_decode_one(Mode::FourByteLast { b1: l, b2: r, b3: s }, t);
        assert(a3 + seq![t] =~= seq![l, r, s, t]);
        assert(ground_mode(l) == Mode::FourByteSecond { b1: l });
        assert(codepoint_width_4(l, r, s, t) == v);
        assert(scalar_event(v, 4) == Some(RenderEvent::Text(c)));
        assert(decode_events(Mode::Ground, seq![l, r, s, t]) =~= seq![RenderEvent::Text(c)]);
    }
}

/// The bytes of a complete erase-in-display control sequence.
pub open spec fn erase_display_bytes() -> Seq<u8> {
    seq![0x1bu8, 0x5bu8, 0x32u8, 0x4au8]
}

/// A complete erase-in-display sequence arriving in the ground mode emits
/// exactly one `ClearScreen` event and nothing else, whatever well-formed
/// output precedes it and whatever bytes follow it in the stream.
pub proof fn lemma_clear_screen(prefix: Seq<u8>, suffix: Seq<u8>)
    requires
        decode_mode(Mode::Ground, prefix) == Mode::Ground,
    ensures
        decode_events(Mode::Ground, prefix + erase_display_bytes() + suffix) == decode_events(
            Mode::Ground,
            prefix,
        ) + seq![RenderEvent::ClearScreen] + decode_events(Mode::Ground, suffix),
        decode_mode(Mode::Ground, prefix + erase_display_bytes() + suffix) == decode_mode(
            Mode::Ground,
            suffix,
        ),
{
    let e = erase_display_bytes();
    lemma_decode_one(Mode::Ground, 0x1b);
    lemma_decode_one(Mode::Escape, 0x5b);
    lemma_decode_one(Mode::Csi, 0x32);
    lemma_decode_one(Mode::Csi, 0x4a);
    let a1 = seq![0x1bu8];
    let a2 = a1 + seq![0x5bu8];
    let a3 = a2 + seq![0x32u8];
    lemma_decode_append(Mode::Ground, a1, seq![0x5bu8]);
    lemma_decode_append(Mode::Ground, a2, seq![0x32u8]);
    lemma_decode_append(Mode::Ground, a3, seq![0x4au8]);
    assert(a3 + seq![0x4au8] =~= e);
    assert(decode_mode(Mode::Ground, e) == Mode::Ground);
    assert(decode_events(Mode::Ground, e) =~= seq![RenderEvent::ClearScreen]);
    lemma_decode_append(Mode::Ground, prefix, e);
    lemma_decode_append(Mode::Ground, prefix + e, suffix);
    assert(prefix + erase_display_bytes() + suffix =~= (prefix + e) + suffix);
    assert(decode_events(Mode::Ground, (prefix + e) + suffix) =~= decode_events(
        Mode::Ground,
        prefix,
    ) + seq![RenderEvent::ClearScreen] + decode_events(Mode::Ground, suffix));
}

/// Parameter and intermediate bytes of a control sequence are absorbed:
/// they emit nothing and keep the decoder in the sequence.
pub proof fn lemma_csi_params_absorbed(params: Seq<u8>)
    requires
        forall|i: int| 0 <= i < params.len() ==> 0x20 <= #[trigger] params[i] <= 0x3f,
    ensures
        decode_mode(Mode::Csi, params) == Mode::Csi,
        decode_events(Mode::Csi, params) == Seq::<RenderEvent>::empty(),
    decreases params.len(),
{
    if params.len() == 0 {
        assert(decode_events(Mode::Csi, params) =~= Seq::<RenderEvent>::empty());
    } else {
        let p0 = params[0];
        let rest = params.drop_first();
        assert(0x20 <= p0 <= 0x3f);
        assert(step_mode(Mode::Csi, p0) == Mode::Csi);
        assert(step_event(Mode::Csi, p0) is None);
        assert(forall|i: int|
            0 <= i < rest.len() ==> 0x20 <= #[trigger] rest[i] <= 0x3f && rest[i] == params[i
                + 1]);
        lemma_csi_params_absorbed(rest);
        assert(decode_events(Mode::Csi, params) =~= Seq::<RenderEvent>::empty());
    }
}

/// An unsupported control sequence — any run of parameter bytes dispatched
/// by a final byte other than `J` — is consumed without an event and
/// without disturbing the decoding of what follows it.
pub proof fn lemma_unsupported_csi_absorbed(params: Seq<u8>, fin: u8, suffix: Seq<u8>)
    requires
        forall|i: int| 0 <= i < params.len() ==> 0x20 <= #[trigger] params[i] <= 0x3f,
        0x40 <= fin <= 0x7e,
        fin != 0x4a,
    ensures
        decode_events(Mode::Ground, seq![0x1bu8, 0x5bu8] + params + seq![fin] + suffix)
            == decode_events(Mode::Ground, suffix),
        decode_mode(Mode::Ground, seq![0x1bu8, 0x5bu8] + params + seq![fin] + suffix)
            == decode_mode(Mode::Ground, suffix),
{
    let intro = seq![0x1bu8, 0x5bu8];
    lemma_decode_one(Mode::Ground, 0x1b);
    lemma_decode_one(Mode::Escape, 0x5b);
    lemma_decode_append(Mode::Ground, seq![0x1bu8], seq![0x5bu8]);
    assert(seq![0x1bu8] + seq![0x5bu8] =~= intro);
    assert(decode_mode(Mode::Ground, intro) == Mode::Csi);
    assert(decode_events(Mode::Ground, intro) =~= Seq::<RenderEvent>::empty());
    lemma_csi_params_absorbed(params);
    lemma_decode_one(Mode::Csi, fin);
    assert(step_mode(Mode::Csi, fin) == Mode::Ground);
    assert(step_event(Mode::Csi, fin) is None);
    lemma_decode_append(Mode::Ground, intro, params);
    lemma_decode_append(Mode::Ground, intro + params, seq![fin]);
    lemma_decode_append(Mode::Ground, intro + params + seq![fin], suffix);
    assert(intro + params + seq![fin] + suffix =~= ((intro + params) + seq![fin]) + suffix);
    assert(decode_events(Mode::Ground, intro + params + seq![fin] + suffix) =~= decode_events(
        Mode::Ground,
        suffix,
    ));
}

} // verus!
