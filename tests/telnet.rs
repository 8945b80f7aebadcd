use blightmud::model::{Event, Line};
use blightmud::telnet::{encode_line, OutputBuffer, TelnetEvent, TelnetReader};

#[test]
fn encode_line_escapes_iac() {
    assert_eq!(encode_line("look"), vec![b'l', b'o', b'o', b'k', 13, 10]);
    assert_eq!(encode_line("ÿ"), vec![0xC3, 0xBF, 13, 10]);
}

#[test]
fn lines_are_assembled_across_chunks() {
    let mut out = OutputBuffer::new();
    assert!(out.receive_text(b"hel").is_empty());
    let lines = out.receive_text(b"lo\r\nwor");
    assert_eq!(lines, vec![b"hello".to_vec()]);
    assert_eq!(out.buffer, b"wor".to_vec());
    let lines = out.receive_text(b"ld\n\n");
    assert_eq!(lines, vec![b"world".to_vec(), Vec::new()]);
    assert!(out.buffer.is_empty());
}

#[test]
fn go_ahead_makes_prompt() {
    let mut out = OutputBuffer::new();
    out.handle_event(TelnetEvent::DataReceive(b"HP: 10 > ".to_vec()));
    let events = out.handle_event(TelnetEvent::Iac(249));
    let mut prompt = Line::from("HP: 10 > ");
    prompt.flags.prompt = true;
    assert_eq!(events, vec![Event::ServerOutput(prompt)]);
    assert_eq!(out.prompt, b"HP: 10 > ".to_vec());
    assert!(out.buffer.is_empty());
}

#[test]
fn gmcp_subnegotiation() {
    let mut out = OutputBuffer::new();
    let events = out.handle_event(TelnetEvent::Subnegotiation(201, b"Core.Hello {}".to_vec()));
    assert_eq!(events, vec![Event::GMCPReceive("Core.Hello {}".to_string())]);
    let events = out.handle_event(TelnetEvent::Subnegotiation(201, vec![0xC3]));
    assert_eq!(events, vec![Event::Error("Malformed GMCP message".to_string())]);
    let events = out.handle_event(TelnetEvent::Subnegotiation(24, b"x".to_vec()));
    assert!(events.is_empty());
    let events = out.handle_event(TelnetEvent::Negotiation(251, 201));
    assert_eq!(events, vec![Event::GMCPReady]);
}

#[test]
fn reader_parses_stream() {
    let mut reader = TelnetReader::new();
    let mut data = vec![255, 253, 201];
    data.extend_from_slice(b"Welcome\r\n");
    data.extend_from_slice(&[255, 250, 201]);
    data.extend_from_slice(b"Room.Info {}");
    data.extend_from_slice(&[255, 240]);
    data.extend_from_slice(b"> ");
    data.extend_from_slice(&[255, 249]);
    let events = reader.receive(&data);
    let mut prompt = Line::from("> ");
    prompt.flags.prompt = true;
    assert_eq!(
        events,
        vec![
            Event::ServerWrite(vec![255, 251, 201]),
            Event::GMCPReady,
            Event::ServerOutput(Line::from("Welcome")),
            Event::GMCPReceive("Room.Info {}".to_string()),
            Event::ServerOutput(prompt),
        ]
    );
}

#[test]
fn gmcp_frame_wraps_and_escapes() {
    assert_eq!(
        blightmud::telnet::gmcp_frame("Core.Hello"),
        [vec![255, 250, 201], b"Core.Hello".to_vec(), vec![255, 240]].concat()
    );
    assert_eq!(blightmud::telnet::gmcp_frame("ÿ"), vec![255, 250, 201, 0xC3, 0xBF, 255, 240]);
}

#[test]
fn handle_events_in_order() {
    let mut out = OutputBuffer::new();
    let events = out.handle_events(vec![
        TelnetEvent::DataReceive(b"a\nb".to_vec()),
        TelnetEvent::Iac(239),
        TelnetEvent::DataSend(vec![1, 2]),
    ]);
    let mut prompt = Line::from("b");
    prompt.flags.prompt = true;
    assert_eq!(
        events,
        vec![Event::ServerOutput(Line::from("a")), Event::ServerOutput(prompt), Event::ServerWrite(vec![1, 2])]
    );
}
