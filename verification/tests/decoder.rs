use hacker_term::decoder::Decoder;
use hacker_term::event::RenderEvent;

fn decode_all(bytes: &[u8]) -> Vec<RenderEvent> {
    let mut dec = Decoder::new();
    let mut out: Vec<RenderEvent> = Vec::new();
    dec.feed(bytes, &mut out);
    out
}

#[test]
fn printable_bytes_round_trip() {
    let input = b"hello, world! 0123 ~";
    let events = decode_all(input);
    assert_eq!(events.len(), input.len());
    let mut back: Vec<u8> = Vec::new();
    for ev in &events {
        match ev {
            RenderEvent::Text(c) => back.push(*c as u8),
            other => panic!("unexpected event {:?}", other),
        }
    }
    assert_eq!(back, input.to_vec());
}

#[test]
fn control_bytes_have_their_events() {
    let events = decode_all(b"\n\r\t\x08");
    assert_eq!(
        events,
        vec![
            RenderEvent::Newline,
            RenderEvent::CarriageReturn,
            RenderEvent::Tab,
            RenderEvent::Backspace,
        ]
    );
}

#[test]
fn other_control_bytes_are_ignored() {
    let events = decode_all(b"\x00\x07\x0b\x0c\x1f\x7fa");
    assert_eq!(events, vec![RenderEvent::Text('a')]);
}

#[test]
fn hi_crlf_event_sequence() {
    let events = decode_all(b"hi\r\n");
    assert_eq!(
        events,
        vec![
            RenderEvent::Text('h'),
            RenderEvent::Text('i'),
            RenderEvent::CarriageReturn,
            RenderEvent::Newline,
        ]
    );
}

#[test]
fn erase_in_display_emits_one_clear_screen() {
    let events = decode_all(b"\x1b[2J");
    assert_eq!(events, vec![RenderEvent::ClearScreen]);
}

#[test]
fn erase_in_display_between_text() {
    let events = decode_all(b"ab\x1b[2Jcd");
    assert_eq!(
        events,
        vec![
            RenderEvent::Text('a'),
            RenderEvent::Text('b'),
            RenderEvent::ClearScreen,
            RenderEvent::Text('c'),
            RenderEvent::Text('d'),
        ]
    );
}

#[test]
fn unsupported_sgr_emits_nothing() {
    let events = decode_all(b"\x1b[31m");
    assert_eq!(events, Vec::new());
}

#[test]
fn unsupported_sgr_keeps_stream_aligned() {
    let events = decode_all(b"\x1b[31mA");
    assert_eq!(events, vec![RenderEvent::Text('A')]);
}

#[test]
fn cursor_home_sequence_is_absorbed() {
    let events = decode_all(b"\x1b[HX");
    assert_eq!(events, vec![RenderEvent::Text('X')]);
}

#[test]
fn single_character_escape_is_absorbed() {
    let events = decode_all(b"\x1bMA");
    assert_eq!(events, vec![RenderEvent::Text('A')]);
}

#[test]
fn osc_title_sequence_bel_terminated() {
    let events = decode_all(b"\x1b]0;window title\x07ok");
    assert_eq!(events, vec![RenderEvent::Text('o'), RenderEvent::Text('k')]);
}

#[test]
fn osc_sequence_string_terminated() {
    let events = decode_all(b"\x1b]2;t\x1b\\Z");
    assert_eq!(events, vec![RenderEvent::Text('Z')]);
}

#[test]
fn two_byte_character_is_assembled() {
    let events = decode_all("\u{e9}".as_bytes());
    assert_eq!(events, vec![RenderEvent::Text('\u{e9}')]);
}

#[test]
fn three_byte_character_is_assembled() {
    let events = decode_all("\u{20ac}".as_bytes());
    assert_eq!(events, vec![RenderEvent::Text('\u{20ac}')]);
}

#[test]
fn four_byte_character_is_assembled() {
    let events = decode_all("\u{1f4bb}".as_bytes());
    assert_eq!(events, vec![RenderEvent::Text('\u{1f4bb}')]);
}

#[test]
fn mixed_text_keeps_byte_order() {
    let events = decode_all("a\u{e9}b".as_bytes());
    assert_eq!(
        events,
        vec![
            RenderEvent::Text('a'),
            RenderEvent::Text('\u{e9}'),
            RenderEvent::Text('b'),
        ]
    );
}

#[test]
fn overlong_encoding_is_dropped() {
    let events = decode_all(b"\xc0\xafA");
    assert_eq!(events, vec![RenderEvent::Text('A')]);
}

#[test]
fn surrogate_encoding_is_dropped() {
    let events = decode_all(b"\xed\xa0\x80A");
    assert_eq!(events, vec![RenderEvent::Text('A')]);
}

#[test]
fn stray_continuation_byte_is_ignored() {
    let events = decode_all(b"\x80A");
    assert_eq!(events, vec![RenderEvent::Text('A')]);
}

#[test]
fn truncated_character_reprocesses_next_byte() {
    let events = decode_all(b"\xc3A");
    assert_eq!(events, vec![RenderEvent::Text('A')]);
}

#[test]
fn invalid_lead_byte_is_ignored() {
    let events = decode_all(b"\xffA");
    assert_eq!(events, vec![RenderEvent::Text('A')]);
}

#[test]
fn split_feeding_matches_whole_feeding() {
    let whole = decode_all(b"a\x1b[2Jb");
    let mut dec = Decoder::new();
    let mut split: Vec<RenderEvent> = Vec::new();
    dec.feed(b"a\x1b[", &mut split);
    dec.feed(b"2Jb", &mut split);
    assert_eq!(split, whole);
    assert_eq!(
        split,
        vec![
            RenderEvent::Text('a'),
            RenderEvent::ClearScreen,
            RenderEvent::Text('b'),
        ]
    );
}

#[test]
fn byte_by_byte_feeding_matches_whole_feeding() {
    let input = "x\u{e9}\x1b[31m\n".as_bytes();
    let whole = decode_all(input);
    let mut dec = Decoder::new();
    let mut collected: Vec<RenderEvent> = Vec::new();
    for b in input {
        if let Some(ev) = dec.feed_byte(*b) {
            collected.push(ev);
        }
    }
    assert_eq!(collected, whole);
}
