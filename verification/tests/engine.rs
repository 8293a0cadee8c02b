use hacker_term::decoder::Decoder;
use hacker_term::event::RenderEvent;
use hacker_term::pump::pump_chunk;
use hacker_term::relay::{relay_action, KeyEvent, RelayAction};
use hacker_term::render::{render_event, SinkOp};
use hacker_term::session::{choose_shell, EngineConfig, SessionError};

#[test]
fn zero_length_read_terminates_pump_silently() {
    let mut dec = Decoder::new();
    let mut queue: Vec<RenderEvent> = Vec::new();
    let done = pump_chunk(&mut dec, &[], &mut queue);
    assert!(done);
    assert!(queue.is_empty());
}

#[test]
fn pump_forwards_decoded_events_in_order() {
    let mut dec = Decoder::new();
    let mut queue: Vec<RenderEvent> = Vec::new();
    let done = pump_chunk(&mut dec, b"ok\n", &mut queue);
    assert!(!done);
    assert_eq!(
        queue,
        vec![
            RenderEvent::Text('o'),
            RenderEvent::Text('k'),
            RenderEvent::Newline,
        ]
    );
}

#[test]
fn pump_keeps_order_across_chunks() {
    let mut dec = Decoder::new();
    let mut queue: Vec<RenderEvent> = Vec::new();
    assert!(!pump_chunk(&mut dec, b"a\x1b[", &mut queue));
    assert!(!pump_chunk(&mut dec, b"2Jb", &mut queue));
    assert!(pump_chunk(&mut dec, &[], &mut queue));
    assert_eq!(
        queue,
        vec![
            RenderEvent::Text('a'),
            RenderEvent::ClearScreen,
            RenderEvent::Text('b'),
        ]
    );
}

#[test]
fn hi_crlf_renders_paced_characters_in_order() {
    let mut dec = Decoder::new();
    let mut queue: Vec<RenderEvent> = Vec::new();
    pump_chunk(&mut dec, b"hi\r\n", &mut queue);
    let mut ops: Vec<SinkOp> = Vec::new();
    for ev in &queue {
        render_event(ev, &mut ops);
    }
    assert_eq!(
        ops,
        vec![
            SinkOp::EmitCharacter('h'),
            SinkOp::EmitCharacter('i'),
            SinkOp::EmitCharacter('\r'),
            SinkOp::EmitCharacter('\n'),
        ]
    );
}

#[test]
fn clear_screen_event_clears_and_homes() {
    let mut ops: Vec<SinkOp> = Vec::new();
    render_event(&RenderEvent::ClearScreen, &mut ops);
    assert_eq!(ops, vec![SinkOp::ClearAndHome]);
}

#[test]
fn control_events_emit_their_characters() {
    let mut ops: Vec<SinkOp> = Vec::new();
    render_event(&RenderEvent::Newline, &mut ops);
    render_event(&RenderEvent::CarriageReturn, &mut ops);
    render_event(&RenderEvent::Tab, &mut ops);
    render_event(&RenderEvent::Backspace, &mut ops);
    assert_eq!(
        ops,
        vec![
            SinkOp::EmitCharacter('\n'),
            SinkOp::EmitCharacter('\r'),
            SinkOp::EmitCharacter('\t'),
            SinkOp::EmitCharacter('\u{8}'),
        ]
    );
}

#[test]
fn escape_key_ends_relay_while_child_is_alive() {
    let action = relay_action(false, &KeyEvent::Escape);
    assert_eq!(action, RelayAction::Shutdown);
}

#[test]
fn exited_child_ends_relay_whatever_the_key() {
    assert_eq!(relay_action(true, &KeyEvent::Character('x')), RelayAction::Shutdown);
    assert_eq!(relay_action(true, &KeyEvent::Other), RelayAction::Shutdown);
}

#[test]
fn backspace_key_writes_delete_byte() {
    let action = relay_action(false, &KeyEvent::Backspace);
    assert_eq!(action, RelayAction::Write(vec![0x7f]));
    assert_ne!(action, RelayAction::Write(vec![0x08]));
}

#[test]
fn enter_key_writes_line_feed() {
    assert_eq!(relay_action(false, &KeyEvent::Enter), RelayAction::Write(vec![0x0a]));
}

#[test]
fn character_key_writes_its_encoded_bytes() {
    assert_eq!(
        relay_action(false, &KeyEvent::Character('a')),
        RelayAction::Write(vec![0x61])
    );
    assert_eq!(
        relay_action(false, &KeyEvent::Character('\u{e9}')),
        RelayAction::Write(vec![0xc3, 0xa9])
    );
    assert_eq!(
        relay_action(false, &KeyEvent::Character('\u{20ac}')),
        RelayAction::Write(vec![0xe2, 0x82, 0xac])
    );
    assert_eq!(
        relay_action(false, &KeyEvent::Character('\u{1f4bb}')),
        RelayAction::Write(vec![0xf0, 0x9f, 0x92, 0xbb])
    );
}

#[test]
fn typed_characters_echo_back_intact() {
    for c in ['a', '~', '\u{e9}', '\u{20ac}', '\u{1f4bb}'] {
        let action = relay_action(false, &KeyEvent::Character(c));
        let bytes = match action {
            RelayAction::Write(bytes) => bytes,
            other => panic!("unexpected action {:?}", other),
        };
        let mut dec = Decoder::new();
        let mut events: Vec<RenderEvent> = Vec::new();
        dec.feed(&bytes, &mut events);
        assert_eq!(events, vec![RenderEvent::Text(c)]);
    }
}

#[test]
fn other_keys_are_ignored() {
    assert_eq!(relay_action(false, &KeyEvent::Other), RelayAction::Ignore);
}

#[test]
fn default_engine_config() {
    let config = EngineConfig::new();
    assert_eq!(config.chunk_size, 1024);
    assert_eq!(config.pacing_delay_ms, 4);
}

#[test]
fn shell_choice_prefers_zsh() {
    assert_eq!(choose_shell(true), "/bin/zsh");
    assert_eq!(choose_shell(false), "/bin/bash");
}

#[test]
fn session_errors_are_distinct() {
    assert_ne!(SessionError::PtyAllocation, SessionError::Spawn);
    assert_ne!(SessionError::Spawn, SessionError::WriteFailure);
}
