//! Lines of text, connections and the events that travel on the session's bus.
use vstd::prelude::*;
use crate::text::string_of;

verus! {

/// What has been decided about a line.
#[derive(Clone, Copy, Debug, PartialEq, Eq, Structural)]
pub struct LineFlags {
    pub matched: bool,
    pub gag: bool,
    pub bypass_script: bool,
    pub prompt: bool,
}

impl LineFlags {
    pub open spec fn none() -> LineFlags {
        LineFlags { matched: false, gag: false, bypass_script: false, prompt: false }
    }
}

/// A unit of text: as received, with styling stripped, and its flags.
#[derive(Clone, Debug, PartialEq, Eq)]
pub struct Line {
    pub content: String,
    pub clean: String,
    pub flags: LineFlags,
}

/// The abstract value of a line.
pub struct LineView {
    pub content: Seq<char>,
    pub clean: Seq<char>,
    pub flags: LineFlags,
}

impl View for Line {
    type V = LineView;

    open spec fn view(&self) -> LineView {
        LineView { content: self.content@, clean: self.clean@, flags: self.flags }
    }
}

/// The characters that open a terminal control sequence.
pub open spec fn is_escape(c: char) -> bool {
    c == '\u{1b}'
}

/// The characters that end a control sequence.
pub open spec fn is_final(c: char) -> bool {
    '@' <= c <= '~'
}

/// The text without control sequences: an escape character followed by `[`
/// starts one, which runs up to and with the first character from `@` to `~`.
pub open spec fn strip_styling(s: Seq<char>) -> Seq<char>
    decreases s.len(),
{
    if s.len() == 0 {
        Seq::empty()
    } else if s.len() >= 2 && is_escape(s[0]) && s[1] == '[' {
        strip_sequence(s.drop_first().drop_first())
    } else {
        seq![s[0]] + strip_styling(s.drop_first())
    }
}

/// The text after the end of a control sequence whose body starts `s`.
pub open spec fn strip_sequence(s: Seq<char>) -> Seq<char>
    decreases s.len(),
{
    if s.len() == 0 {
        Seq::empty()
    } else if is_final(s[0]) {
        strip_styling(s.drop_first())
    } else {
        strip_sequence(s.drop_first())
    }
}

/// Removes terminal control sequences from `s`.
pub fn strip_styling_chars(s: &Vec<char>) -> (r: Vec<char>)
    ensures
        r@ == strip_styling(s@),
{
    let mut out: Vec<char> = Vec::new();
    let mut i: usize = 0;
    let mut in_seq = false;
    assert(s@.subrange(0, s@.len() as int) =~= s@);
    assert(out@ + strip_styling(s@) =~= strip_styling(s@));
    while i < s.len()
        invariant
            i <= s@.len(),
            out@ + (if in_seq { strip_sequence(s@.subrange(i as int, s@.len() as int)) } else {
                strip_styling(s@.subrange(i as int, s@.len() as int))
            }) == strip_styling(s@),
        decreases s@.len() - i,
    {
        let ghost rest = s@.subrange(i as int, s@.len() as int);
        let c = s[i];
        if in_seq {
            assert(rest.drop_first() == s@.subrange(i + 1, s@.len() as int));
            if '@' <= c && c <= '~' {
                in_seq = false;
            }
            i = i + 1;
        } else if c == '\u{1b}' && i + 1 < s.len() && s[i + 1] == '[' {
            assert(rest.drop_first().drop_first() == s@.subrange(i + 2, s@.len() as int));
            in_seq = true;
            i = i + 2;
        } else {
            assert(rest.drop_first() == s@.subrange(i + 1, s@.len() as int));
            let ghost before = out@;
            out.push(c);
            i = i + 1;
            assert(out@ + strip_styling(s@.subrange(i as int, s@.len() as int))
                =~= before + (seq![c] + strip_styling(s@.subrange(i as int, s@.len() as int))));
        }
    }
    out
}

impl Line {
    /// A line holding `s`, its clean form without control sequences, and no
    /// flags set.
    pub fn from(s: &str) -> (r: Line)
        ensures
            r@.content == s@,
            r@.clean == strip_styling(s@),
            r@.flags == LineFlags::none(),
    {
        let cs = crate::text::chars_of(s);
        let clean = strip_styling_chars(&cs);
        Line {
            content: s.to_owned(),
            clean: string_of(clean.as_slice()),
            flags: LineFlags { matched: false, gag: false, bypass_script: false, prompt: false },
        }
    }

    /// A received line holding `s`, marked as a prompt when `prompt` holds.
    pub fn from_text(s: &str, prompt: bool) -> (r: Line)
        ensures
            r@.content == s@,
            r@.clean == strip_styling(s@),
            r@.flags == (LineFlags { prompt, ..LineFlags::none() }),
    {
        let mut line = Line::from(s);
        line.flags.prompt = prompt;
        line
    }

    /// The text with styling stripped, which rules match against.
    pub fn clean_line(&self) -> (r: &str)
        ensures
            r@ == self@.clean,
    {
        self.clean.as_str()
    }
}

/// Where to connect: host, port and whether to wrap the stream in TLS.
#[derive(Clone, Debug, PartialEq, Eq)]
pub struct Connection {
    pub host: String,
    pub port: u16,
    pub tls: bool,
}

pub struct ConnectionView {
    pub host: Seq<char>,
    pub port: u16,
    pub tls: bool,
}

impl View for Connection {
    type V = ConnectionView;

    open spec fn view(&self) -> ConnectionView {
        ConnectionView { host: self.host@, port: self.port, tls: self.tls }
    }
}

impl Connection {
    pub fn new(host: &str, port: u16, tls: bool) -> (r: Connection)
        ensures
            r@ == (ConnectionView { host: host@, port, tls }),
    {
        Connection { host: host.to_owned(), port, tls }
    }
}

/// The messages on the session's bus.
#[derive(Clone, Debug, PartialEq, Eq)]
pub enum Event {
    Connect(Connection),
    Connected,
    Disconnect(u16),
    Disconnected,
    Reconnect,
    Quit,
    ServerBytes(Vec<u8>),
    ServerOutput(Line),
    ServerWrite(Vec<u8>),
    GMCPReady,
    ServerInput(Line),
    InputSent(Line),
    Output(Line),
    Info(String),
    Error(String),
    GMCPReceive(String),
    GMCPSend(String),
    UserInputBuffer(String, usize),
    Redraw,
    ScrollUp,
    ScrollDown,
    ScrollTop,
    ScrollBottom,
    LoadScript(String),
    LoadServer(String),
    AddServer(String, Connection),
    RemoveServer(String),
    ListServers,
    ShowHelp(String),
    StartLogging(String, bool),
    StopLogging,
    ShowSettings,
    ShowSetting(String),
    ToggleSetting(String, String),
    TimedEvent(u32),
}

/// The abstract value of an event.
pub enum EventView {
    Connect(ConnectionView),
    Connected,
    Disconnect(u16),
    Disconnected,
    Reconnect,
    Quit,
    ServerBytes(Seq<u8>),
    ServerOutput(LineView),
    ServerWrite(Seq<u8>),
    GMCPReady,
    ServerInput(LineView),
    InputSent(LineView),
    Output(LineView),
    Info(Seq<char>),
    Error(Seq<char>),
    GMCPReceive(Seq<char>),
    GMCPSend(Seq<char>),
    UserInputBuffer(Seq<char>, usize),
    Redraw,
    ScrollUp,
    ScrollDown,
    ScrollTop,
    ScrollBottom,
    LoadScript(Seq<char>),
    LoadServer(Seq<char>),
    AddServer(Seq<char>, ConnectionView),
    RemoveServer(Seq<char>),
    ListServers,
    ShowHelp(Seq<char>),
    StartLogging(Seq<char>, bool),
    StopLogging,
    ShowSettings,
    ShowSetting(Seq<char>),
    ToggleSetting(Seq<char>, Seq<char>),
    TimedEvent(u32),
}

impl View for Event {
    type V = EventView;

    open spec fn view(&self) -> EventView {
        match self {
            Event::Connect(c) => EventView::Connect(c@),
            Event::Connected => EventView::Connected,
            Event::Disconnect(code) => EventView::Disconnect(*code),
            Event::Disconnected => EventView::Disconnected,
            Event::Reconnect => EventView::Reconnect,
            Event::Quit => EventView::Quit,
            Event::ServerBytes(b) => EventView::ServerBytes(b@),
            Event::ServerOutput(l) => EventView::ServerOutput(l@),
            Event::ServerWrite(b) => EventView::ServerWrite(b@),
            Event::GMCPReady => EventView::GMCPReady,
            Event::ServerInput(l) => EventView::ServerInput(l@),
            Event::InputSent(l) => EventView::InputSent(l@),
            Event::Output(l) => EventView::Output(l@),
            Event::Info(s) => EventView::Info(s@),
            Event::Error(s) => EventView::Error(s@),
            Event::GMCPReceive(s) => EventView::GMCPReceive(s@),
            Event::GMCPSend(s) => EventView::GMCPSend(s@),
            Event::UserInputBuffer(s, p) => EventView::UserInputBuffer(s@, *p),
            Event::Redraw => EventView::Redraw,
            Event::ScrollUp => EventView::ScrollUp,
            Event::ScrollDown => EventView::ScrollDown,
            Event::ScrollTop => EventView::ScrollTop,
            Event::ScrollBottom => EventView::ScrollBottom,
            Event::LoadScript(s) => EventView::LoadScript(s@),
            Event::LoadServer(s) => EventView::LoadServer(s@),
            Event::AddServer(s, c) => EventView::AddServer(s@, c@),
            Event::RemoveServer(s) => EventView::RemoveServer(s@),
            Event::ListServers => EventView::ListServers,
            Event::ShowHelp(s) => EventView::ShowHelp(s@),
            Event::StartLogging(s, reset) => EventView::StartLogging(s@, *reset),
            Event::StopLogging => EventView::StopLogging,
            Event::ShowSettings => EventView::ShowSettings,
            Event::ShowSetting(s) => EventView::ShowSetting(s@),
            Event::ToggleSetting(k, v) => EventView::ToggleSetting(k@, v@),
            Event::TimedEvent(id) => EventView::TimedEvent(*id),
        }
    }
}

} // verus!
