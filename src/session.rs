//! The session's life cycle: which endpoint it is bound to, whether it is
//! connected, and the events that its transitions put on the bus. Opening and
//! closing the socket is left to the caller, which is told when to do so.
use vstd::prelude::*;
use std::sync::mpsc::Sender;
use crate::model::{Event, EventView};
use crate::text::push_str_chars;
use crate::telnet::{TelnetReader, TelnetEvent, handled_all, events_view as telnet_events_view};

verus! {

#[verifier::external_type_specification]
#[verifier::external_body]
#[verifier::reject_recursive_types(T)]
pub struct ExSender<T>(Sender<T>);

/// Builds a session around the sending end of the event bus.
pub struct SessionBuilder {
    pub main_thread_writer: Option<Sender<Event>>,
}

impl SessionBuilder {
    pub fn new() -> (r: Self)
        ensures
            r.main_thread_writer is None,
    {
        SessionBuilder { main_thread_writer: None }
    }

    pub fn main_thread_writer(self, main_thread_writer: Sender<Event>) -> (r: Self)
        ensures
            r.main_thread_writer == Some(main_thread_writer),
    {
        SessionBuilder { main_thread_writer: Some(main_thread_writer) }
    }

    /// A session that is not connected, bound to no host, with no events.
    pub fn build(self) -> (r: Session)
        requires
            self.main_thread_writer is Some,
        ensures
            r.main_thread_writer == self.main_thread_writer->0,
            r@ == (SessionView { host: Seq::empty(), port: 0, connected: false, events: Seq::empty() }),
            r.telnet.output.buffer@.len() == 0,
            r.telnet.output.prompt@.len() == 0,
    {
        let r = Session {
            host: String::new(),
            port: 0,
            connected: false,
            main_thread_writer: self.main_thread_writer.unwrap(),
            events: Vec::new(),
            telnet: TelnetReader::new(),
        };
        assert(events_view(r.events@) =~= Seq::<EventView>::empty());
        r
    }
}

pub open spec fn events_view(v: Seq<Event>) -> Seq<EventView> {
    v.map_values(|e: Event| e@)
}

/// The abstract state of a session.
pub struct SessionView {
    pub host: Seq<char>,
    pub port: u32,
    pub connected: bool,
    pub events: Seq<EventView>,
}

/// What the caller has to do after `connect`.
#[derive(Clone, Copy, Debug, PartialEq, Eq, Structural)]
pub enum ConnectStep {
    /// Already connected to that endpoint: nothing.
    AlreadyConnected,
    /// Shut the old socket, if `close_first`, then open one to the endpoint
    /// and report how that went.
    Open { close_first: bool },
}

/// The message of a failed connection attempt.
pub open spec fn connect_failure(host: Seq<char>) -> Seq<char> {
    "Failed to connect to "@ + host
}

/// Whether `connect(host, port)` has a connection to open.
pub open spec fn connect_opens(s: SessionView, host: Seq<char>, port: u32) -> bool {
    !(s.connected && s.host == host && s.port == port)
}

/// The session once it is disconnected.
pub open spec fn disconnected(s: SessionView) -> SessionView {
    if s.connected {
        SessionView { connected: false, events: s.events.push(EventView::Disconnected), ..s }
    } else {
        s
    }
}

/// The session after `connect(host, port)`.
pub open spec fn after_connect(s: SessionView, host: Seq<char>, port: u32) -> SessionView {
    if connect_opens(s, host, port) {
        SessionView { host, port, ..disconnected(s) }
    } else {
        s
    }
}

/// The session after an attempt to open a connection succeeded or failed.
pub open spec fn after_open(s: SessionView, ok: bool) -> SessionView {
    if ok {
        SessionView { connected: true, events: s.events.push(EventView::Connected), ..s }
    } else {
        SessionView { events: s.events.push(EventView::Error(connect_failure(s.host))), ..s }
    }
}

/// How many `Connected` events there are.
pub open spec fn count_connected(events: Seq<EventView>) -> nat
    decreases events.len(),
{
    if events.len() == 0 {
        0
    } else {
        count_connected(events.drop_last()) + if events.last() is Connected { 1nat } else { 0nat }
    }
}

proof fn lemma_count_push(events: Seq<EventView>, e: EventView)
    ensures
        count_connected(events.push(e)) == count_connected(events) + if e is Connected { 1nat } else { 0nat },
{
    assert(events.push(e).drop_last() =~= events);
}

/// Connecting to an endpoint and then connecting to it again yields one
/// `Connected` event: the second call finds the session connected there and
/// changes nothing.
pub proof fn lemma_connect_idempotent(s: SessionView, host: Seq<char>, port: u32)
    requires
        !s.connected,
    ensures
        connect_opens(s, host, port),
        ({
            let s2 = after_open(after_connect(s, host, port), true);
            &&& !connect_opens(s2, host, port)
            &&& after_connect(s2, host, port) == s2
            &&& count_connected(s2.events) == count_connected(s.events) + 1
        }),
{
    let s1 = after_connect(s, host, port);
    assert(s1.events == s.events);
    lemma_count_push(s1.events, EventView::Connected);
}

/// A session: the endpoint it is bound to, whether it is connected, the
/// sending end of the event bus, the events its transitions queued, and the
/// telnet parser with the output buffer of the current connection.
pub struct Session {
    pub host: String,
    pub port: u32,
    pub connected: bool,
    pub main_thread_writer: Sender<Event>,
    pub events: Vec<Event>,
    pub telnet: TelnetReader,
}

impl View for Session {
    type V = SessionView;

    open spec fn view(&self) -> SessionView {
        SessionView {
            host: self.host@,
            port: self.port,
            connected: self.connected,
            events: events_view(self.events@),
        }
    }
}

impl Session {
    /// Binds the session to `host` and `port`. Nothing is to be done when it
    /// is connected there already; otherwise it is disconnected first and a
    /// connection is to be opened, whose outcome goes to `connect_result`.
    pub fn connect(&mut self, host: &str, port: u32) -> (r: ConnectStep)
        ensures
            final(self)@ == after_connect(old(self)@, host@, port),
            r == if connect_opens(old(self)@, host@, port) {
                ConnectStep::Open { close_first: old(self).connected }
            } else {
                ConnectStep::AlreadyConnected
            },
            final(self).main_thread_writer == old(self).main_thread_writer,
            connect_opens(old(self)@, host@, port) ==> final(self).telnet.output.buffer@.len() == 0
                && final(self).telnet.output.prompt@.len() == 0,
            !connect_opens(old(self)@, host@, port) ==> final(self).telnet == old(self).telnet,
    {
        if self.connected && crate::parse::same_text(self.host.as_str(), host) && self.port == port {
            return ConnectStep::AlreadyConnected;
        }
        let close_first = self.disconnect();
        self.host = host.to_owned();
        self.port = port;
        ConnectStep::Open { close_first }
    }

    /// Records how an attempt to open a connection went: connected, with a
    /// `Connected` event, or an `Error` event.
    pub fn connect_result(&mut self, ok: bool)
        ensures
            final(self)@ == after_open(old(self)@, ok),
            final(self).main_thread_writer == old(self).main_thread_writer,
            final(self).telnet == old(self).telnet,
    {
        if ok {
            self.connected = true;
            self.events.push(Event::Connected);
        } else {
            let mut msg: Vec<char> = Vec::new();
            proof { reveal_strlit("Failed to connect to "); }
            push_str_chars(&mut msg, "Failed to connect to ");
            push_str_chars(&mut msg, self.host.as_str());
            self.events.push(Event::Error(crate::text::string_of(msg.as_slice())));
        }
        assert(events_view(self.events@) =~= events_view(old(self).events@).push(self.events@.last()@));
    }

    /// Disconnects a connected session, with a `Disconnected` event; says
    /// whether there was a socket to shut. The prompt and the current line
    /// are cleared, and the telnet parser starts afresh.
    pub fn disconnect(&mut self) -> (r: bool)
        ensures
            r == old(self).connected,
            final(self)@ == disconnected(old(self)@),
            final(self).main_thread_writer == old(self).main_thread_writer,
            final(self).telnet.output.buffer@.len() == 0,
            final(self).telnet.output.prompt@.len() == 0,
    {
        self.telnet = TelnetReader::new();
        if self.connected {
            self.connected = false;
            self.events.push(Event::Disconnected);
            assert(events_view(self.events@) =~= events_view(old(self).events@).push(EventView::Disconnected));
            true
        } else {
            false
        }
    }

    /// Queues an event for the bus.
    pub fn send_event(&mut self, event: Event)
        ensures
            final(self)@ == (SessionView { events: old(self)@.events.push(event@), ..old(self)@ }),
            final(self).main_thread_writer == old(self).main_thread_writer,
            final(self).telnet == old(self).telnet,
    {
        self.events.push(event);
        assert(events_view(self.events@) =~= old(self)@.events.push(self.events@.last()@));
    }

    /// Disconnects, then queues `Quit`; says whether there was a socket to shut.
    pub fn close(&mut self) -> (r: bool)
        ensures
            r == old(self).connected,
            final(self)@ == (SessionView {
                events: disconnected(old(self)@).events.push(EventView::Quit),
                ..disconnected(old(self)@)
            }),
            final(self).main_thread_writer == old(self).main_thread_writer,
            final(self).telnet.output.buffer@.len() == 0,
            final(self).telnet.output.prompt@.len() == 0,
    {
        let r = self.disconnect();
        self.send_event(Event::Quit);
        r
    }

    /// Hands out the queued events, oldest first.
    pub fn take_events(&mut self) -> (r: Vec<Event>)
        ensures
            events_view(r@) == old(self)@.events,
            final(self)@ == (SessionView { events: Seq::empty(), ..old(self)@ }),
            final(self).main_thread_writer == old(self).main_thread_writer,
            final(self).telnet == old(self).telnet,
    {
        let r = self.events.split_off(0);
        assert(events_view(self.events@) =~= Seq::<EventView>::empty());
        r
    }

    /// Feeds bytes received from the server to the telnet parser and the
    /// output buffer; gives what they put on the bus.
    pub fn receive(&mut self, data: &[u8]) -> (r: Vec<Event>)
        ensures
            final(self)@ == old(self)@,
            final(self).main_thread_writer == old(self).main_thread_writer,
            exists|evs: Seq<TelnetEvent>| (
                final(self).telnet.output.buffer@,
                final(self).telnet.output.prompt@,
                telnet_events_view(r@),
            ) == handled_all(old(self).telnet.output.buffer@, old(self).telnet.output.prompt@, evs),
    {
        self.telnet.receive(data)
    }
}

} // verus!
