use blightmud::model::Event;
use blightmud::session::{ConnectStep, Session, SessionBuilder};
use std::sync::mpsc::channel;

fn get_session() -> Session {
    let (writer, _reader) = channel::<Event>();
    SessionBuilder::new().main_thread_writer(writer).build()
}

#[test]
fn connect_twice_yields_one_connected() {
    let mut session = get_session();
    assert_eq!(session.connect("example.org", 4000), ConnectStep::Open { close_first: false });
    session.connect_result(true);
    assert_eq!(session.connect("example.org", 4000), ConnectStep::AlreadyConnected);
    let events = session.take_events();
    assert_eq!(events, vec![Event::Connected]);
}

#[test]
fn connect_elsewhere_disconnects_first() {
    let mut session = get_session();
    session.connect("a.org", 1);
    session.connect_result(true);
    assert_eq!(session.connect("b.org", 1), ConnectStep::Open { close_first: true });
    assert!(!session.connected);
    session.connect_result(false);
    assert_eq!(
        session.take_events(),
        vec![
            Event::Connected,
            Event::Disconnected,
            Event::Error("Failed to connect to b.org".to_string())
        ]
    );
    assert_eq!(session.host, "b.org");
}

#[test]
fn disconnect_when_idle_is_quiet() {
    let mut session = get_session();
    assert!(!session.disconnect());
    assert!(session.take_events().is_empty());
}

#[test]
fn close_disconnects_then_quits() {
    let mut session = get_session();
    session.connect("a.org", 1);
    session.connect_result(true);
    assert!(session.close());
    assert_eq!(session.take_events(), vec![Event::Connected, Event::Disconnected, Event::Quit]);
    session.send_event(Event::Redraw);
    assert_eq!(session.take_events(), vec![Event::Redraw]);
}

#[test]
fn disconnect_clears_prompt() {
    let mut session = get_session();
    session.connect("a.org", 1);
    session.connect_result(true);
    session.receive(&[b'>', b' ', 255, 249]);
    session.receive(b"partial");
    assert_eq!(session.telnet.output.prompt, b"> ".to_vec());
    assert!(session.disconnect());
    assert!(session.telnet.output.prompt.is_empty());
    assert!(session.telnet.output.buffer.is_empty());
}
