//! The telnet side of a session: the parser of the byte stream, and the
//! output buffer that assembles its text into lines and prompts.
use vstd::prelude::*;
use vstd::string::StringSliceAdditionalSpecFns;
use libtelnet_rs::Parser;
use libtelnet_rs::compatibility::CompatibilityTable;
use libtelnet_rs::events::TelnetEvents;
use crate::model::{Event, EventView, Line, LineFlags, LineView, strip_styling};

verus! {

/// The telnet option of GMCP.
pub const GMCP: u8 = 201;
/// The telnet command "go ahead".
pub const GA: u8 = 249;
/// The telnet command "end of record".
pub const EOR: u8 = 239;
/// The telnet command "will".
pub const WILL: u8 = 251;
/// The telnet command "do".
pub const DO: u8 = 253;

#[verifier::external_type_specification]
#[verifier::external_body]
pub struct ExParser(Parser);

#[verifier::external_type_specification]
#[verifier::external_body]
pub struct ExCompatibilityTable(CompatibilityTable);

/// What the telnet parser found in the received bytes.
#[derive(Clone, Debug, PartialEq, Eq)]
pub enum TelnetEvent {
    Iac(u8),
    Negotiation(u8, u8),
    Subnegotiation(u8, Vec<u8>),
    DataReceive(Vec<u8>),
    DataSend(Vec<u8>),
    DecompressImmediate(Vec<u8>),
}

/// Relies on `CompatibilityTable::default`: no option supported.
#[verifier::external_body]
fn compat_default() -> (r: CompatibilityTable) {
    CompatibilityTable::default()
}

/// Relies on `CompatibilityTable::support`: the option becomes supported on
/// both sides.
#[verifier::external_body]
fn compat_support(table: &mut CompatibilityTable, option: u8) {
    table.support(option)
}

/// Relies on `Parser::with_support_and_capacity`: a parser with the given
/// table of supported options.
#[verifier::external_body]
fn parser_with_support(size: usize, table: CompatibilityTable) -> (r: Parser) {
    Parser::with_support_and_capacity(size, table)
}

/// Relies on `Parser::receive`: the events found in the bytes received so far.
#[verifier::external_body]
fn parser_receive(parser: &mut Parser, data: &[u8]) -> (r: Vec<TelnetEvent>) {
    parser.receive(data).into_iter().map(|e| match e {
        TelnetEvents::IAC(i) => TelnetEvent::Iac(i.command),
        TelnetEvents::Negotiation(n) => TelnetEvent::Negotiation(n.command, n.option),
        TelnetEvents::Subnegotiation(s) => TelnetEvent::Subnegotiation(s.option, s.buffer.to_vec()),
        TelnetEvents::DataReceive(b) => TelnetEvent::DataReceive(b.to_vec()),
        TelnetEvents::DataSend(b) => TelnetEvent::DataSend(b.to_vec()),
        TelnetEvents::DecompressImmediate(b) => TelnetEvent::DecompressImmediate(b.to_vec()),
    }).collect()
}

/// The bytes with each 0xFF doubled, as telnet data must be sent.
pub open spec fn iac_escaped(data: Seq<u8>) -> Seq<u8>
    decreases data.len(),
{
    if data.len() == 0 {
        Seq::empty()
    } else {
        iac_escaped(data.drop_last()) + if data.last() == 0xFF { seq![0xFFu8, 0xFFu8] } else { seq![data.last()] }
    }
}

/// Relies on `Parser::escape_iac`: every 0xFF byte is doubled, nothing else
/// changes.
#[verifier::external_body]
fn escape_iac(data: &[u8]) -> (r: Vec<u8>)
    ensures
        r@ == iac_escaped(data@),
{
    Parser::escape_iac(data.to_vec()).to_vec()
}

/// The text that `String::from_utf8_lossy` makes of the bytes.
pub uninterp spec fn utf8_lossy(b: Seq<u8>) -> Seq<char>;

/// The text the bytes encode, if they are valid UTF-8.
pub uninterp spec fn utf8_decode(b: Seq<u8>) -> Option<Seq<char>>;

/// Relies on `String::from_utf8_lossy`: the text, with each invalid sequence
/// replaced.
#[verifier::external_body]
fn lossy_text(b: &[u8]) -> (r: String)
    ensures
        r@ == utf8_lossy(b@),
{
    String::from_utf8_lossy(b).into_owned()
}

/// Relies on `String::from_utf8`: the text when the bytes are valid UTF-8.
#[verifier::external_body]
fn decode_text(b: Vec<u8>) -> (r: Option<String>)
    ensures
        match r {
            Some(s) => utf8_decode(b@) == Some(s@),
            None => utf8_decode(b@) is None,
        },
{
    String::from_utf8(b).ok()
}

/// The option table of a session: GMCP is supported.
pub fn build_compatibility_table() -> (r: CompatibilityTable) {
    let mut table = compat_default();
    compat_support(&mut table, GMCP);
    table
}

/// A parser that supports GMCP.
pub fn new_parser() -> (r: Parser) {
    parser_with_support(1024, build_compatibility_table())
}

/// Bytes to send for a line of user input: its UTF-8 bytes with each 0xFF
/// doubled, then CR LF.
pub fn encode_line(text: &str) -> (r: Vec<u8>)
    ensures
        r@ == iac_escaped(text.spec_bytes()) + seq![13u8, 10u8],
{
    let mut r = escape_iac(text.as_bytes());
    r.push(13);
    r.push(10);
    r
}

/// Bytes that carry a GMCP message to the server: IAC SB GMCP, the message's
/// UTF-8 bytes with each 0xFF doubled, IAC SE.
pub fn gmcp_frame(msg: &str) -> (r: Vec<u8>)
    ensures
        r@ == seq![0xFFu8, 250u8, GMCP] + iac_escaped(msg.spec_bytes()) + seq![0xFFu8, 240u8],
{
    let mut r: Vec<u8> = Vec::new();
    r.push(0xFF);
    r.push(250);
    r.push(GMCP);
    let mut body = escape_iac(msg.as_bytes());
    r.append(&mut body);
    r.push(0xFF);
    r.push(240);
    r
}

/// The text of a line without a carriage return at its end.
pub open spec fn without_cr(l: Seq<u8>) -> Seq<u8> {
    if l.len() > 0 && l.last() == 13 { l.drop_last() } else { l }
}

/// The completed lines and the new accumulator after `data` is appended to
/// the accumulator `acc`: each newline ends a line.
pub open spec fn assemble(acc: Seq<u8>, data: Seq<u8>) -> (Seq<Seq<u8>>, Seq<u8>)
    decreases data.len(),
{
    if data.len() == 0 {
        (Seq::empty(), acc)
    } else {
        let (lines, a) = assemble(acc, data.drop_last());
        if data.last() == 10 {
            (lines.push(without_cr(a)), Seq::empty())
        } else {
            (lines, a.push(data.last()))
        }
    }
}

/// Text assembles to the same lines however it is cut into pieces.
pub proof fn lemma_assemble_chunks(acc: Seq<u8>, a: Seq<u8>, b: Seq<u8>)
    ensures
        assemble(acc, a + b) == ({
            let (l1, a1) = assemble(acc, a);
            let (l2, a2) = assemble(a1, b);
            (l1 + l2, a2)
        }),
    decreases b.len(),
{
    if b.len() == 0 {
        assert(a + b =~= a);
        let (l1, a1) = assemble(acc, a);
        assert(l1 + Seq::<Seq<u8>>::empty() =~= l1);
    } else {
        assert((a + b).drop_last() =~= a + b.drop_last());
        lemma_assemble_chunks(acc, a, b.drop_last());
        let (l1, a1) = assemble(acc, a);
        let (l2, a2) = assemble(a1, b.drop_last());
        if b.last() == 10 {
            assert(l1 + l2.push(without_cr(a2)) =~= (l1 + l2).push(without_cr(a2)));
        }
    }
}

/// Text without newlines or carriage returns, followed by a newline, is
/// assembled into exactly one line that holds it.
pub proof fn lemma_single_line(p: Seq<u8>)
    requires
        forall|i: int| 0 <= i < p.len() ==> p[i] != 10 && p[i] != 13,
    ensures
        assemble(Seq::empty(), p + seq![10u8]) == (seq![p], Seq::<u8>::empty()),
{
    lemma_no_newline(p);
    assert((p + seq![10u8]).drop_last() =~= p);
    assert(Seq::<Seq<u8>>::empty().push(p) =~= seq![p]);
}

proof fn lemma_no_newline(p: Seq<u8>)
    requires
        forall|i: int| 0 <= i < p.len() ==> p[i] != 10 && p[i] != 13,
    ensures
        assemble(Seq::empty(), p) == (Seq::<Seq<u8>>::empty(), p),
    decreases p.len(),
{
    if p.len() > 0 {
        lemma_no_newline(p.drop_last());
        assert(p.drop_last().push(p.last()) =~= p);
    }
}

/// A received line: its text as decoded, styling stripped for matching.
pub open spec fn received_line(b: Seq<u8>, prompt: bool) -> LineView {
    LineView {
        content: utf8_lossy(b),
        clean: strip_styling(utf8_lossy(b)),
        flags: LineFlags { prompt, ..LineFlags::none() },
    }
}

pub open spec fn line_events(lines: Seq<Seq<u8>>) -> Seq<EventView> {
    lines.map_values(|l: Seq<u8>| EventView::ServerOutput(received_line(l, false)))
}

/// The message for a GMCP payload that is not valid UTF-8.
pub open spec fn malformed_gmcp() -> Seq<char> {
    "Malformed GMCP message"@
}

pub open spec fn events_view(v: Seq<Event>) -> Seq<EventView> {
    v.map_values(|e: Event| e@)
}

/// The buffer, the prompt and the events on the bus after the output buffer
/// handles an event of the telnet parser.
pub open spec fn handled(buffer: Seq<u8>, prompt: Seq<u8>, ev: TelnetEvent) -> (Seq<u8>, Seq<u8>, Seq<EventView>) {
    match ev {
        TelnetEvent::DataReceive(b) => {
            let (lines, rest) = assemble(buffer, b@);
            (rest, prompt, line_events(lines))
        },
        TelnetEvent::Iac(c) => if c == GA || c == EOR {
            (Seq::empty(), buffer, seq![EventView::ServerOutput(received_line(buffer, true))])
        } else {
            (buffer, prompt, Seq::empty())
        },
        TelnetEvent::Subnegotiation(o, b) => if o == GMCP {
            match utf8_decode(b@) {
                Some(s) => (buffer, prompt, seq![EventView::GMCPReceive(s)]),
                None => (buffer, prompt, seq![EventView::Error(malformed_gmcp())]),
            }
        } else {
            (buffer, prompt, Seq::empty())
        },
        TelnetEvent::Negotiation(c, o) => if o == GMCP && (c == WILL || c == DO) {
            (buffer, prompt, seq![EventView::GMCPReady])
        } else {
            (buffer, prompt, Seq::empty())
        },
        TelnetEvent::DataSend(b) => (buffer, prompt, seq![EventView::ServerWrite(b@)]),
        TelnetEvent::DecompressImmediate(_) => (buffer, prompt, Seq::empty()),
    }
}

/// The same after a run of events, with the events on the bus in order.
pub open spec fn handled_all(buffer: Seq<u8>, prompt: Seq<u8>, evs: Seq<TelnetEvent>) -> (Seq<u8>, Seq<u8>, Seq<EventView>)
    decreases evs.len(),
{
    if evs.len() == 0 {
        (buffer, prompt, Seq::empty())
    } else {
        let (b1, p1, e1) = handled_all(buffer, prompt, evs.drop_last());
        let (b2, p2, e2) = handled(b1, p1, evs.last());
        (b2, p2, e1 + e2)
    }
}

/// The accumulation of text from the server: the current line, and the last
/// prompt.
pub struct OutputBuffer {
    pub buffer: Vec<u8>,
    pub prompt: Vec<u8>,
}

impl OutputBuffer {
    pub fn new() -> (r: OutputBuffer)
        ensures
            r.buffer@.len() == 0,
            r.prompt@.len() == 0,
    {
        OutputBuffer { buffer: Vec::new(), prompt: Vec::new() }
    }

    /// Forgets the current line and the prompt.
    pub fn clear(&mut self)
        ensures
            final(self).buffer@.len() == 0,
            final(self).prompt@.len() == 0,
    {
        self.buffer.clear();
        self.prompt.clear();
    }

    /// Appends received text; gives the lines that it completed.
    pub fn receive_text(&mut self, data: &[u8]) -> (r: Vec<Vec<u8>>)
        ensures
            r@.map_values(|l: Vec<u8>| l@) == assemble(old(self).buffer@, data@).0,
            final(self).buffer@ == assemble(old(self).buffer@, data@).1,
            final(self).prompt == old(self).prompt,
    {
        let mut lines: Vec<Vec<u8>> = Vec::new();
        let mut i: usize = 0;
        while i < data.len()
            invariant
                i <= data@.len(),
                self.prompt == old(self).prompt,
                lines@.map_values(|l: Vec<u8>| l@) == assemble(old(self).buffer@, data@.subrange(0, i as int)).0,
                self.buffer@ == assemble(old(self).buffer@, data@.subrange(0, i as int)).1,
            decreases data@.len() - i,
        {
            let b = data[i];
            let ghost pre = data@.subrange(0, i as int);
            assert(data@.subrange(0, i + 1).drop_last() =~= pre);
            if b == 10 {
                let ghost a = self.buffer@;
                let mut line = self.buffer.split_off(0);
                assert(line@ =~= a);
                let n = line.len();
                if n > 0 && line[n - 1] == 13 {
                    line.pop();
                    assert(line@ =~= a.drop_last());
                }
                assert(line@ == without_cr(a));
                assert(self.buffer@ =~= Seq::<u8>::empty());
                let ghost before = lines@;
                lines.push(line);
                assert(lines@.map_values(|l: Vec<u8>| l@) =~= before.map_values(|l: Vec<u8>| l@).push(lines@.last()@));
            } else {
                self.buffer.push(b);
            }
            i = i + 1;
        }
        assert(data@.subrange(0, data@.len() as int) =~= data@);
        lines
    }

    /// Takes the current line as the prompt.
    pub fn take_prompt(&mut self) -> (r: Vec<u8>)
        ensures
            r@ == old(self).buffer@,
            final(self).prompt@ == old(self).buffer@,
            final(self).buffer@.len() == 0,
    {
        let p = self.buffer.split_off(0);
        self.prompt = p.clone();
        assert(self.prompt@ =~= p@);
        p
    }

    /// What an event of the telnet parser puts on the bus: a line for each
    /// line of text it completes; the current line as a prompt on go-ahead or
    /// end-of-record; a received GMCP message, or an error when it is no
    /// valid UTF-8; a notice when the server agrees to GMCP; and the bytes
    /// that the parser wants sent.
    pub fn handle_event(&mut self, ev: TelnetEvent) -> (r: Vec<Event>)
        ensures
            (final(self).buffer@, final(self).prompt@, events_view(r@))
                == handled(old(self).buffer@, old(self).prompt@, ev),
    {
        let mut out: Vec<Event> = Vec::new();
        match ev {
            TelnetEvent::DataReceive(b) => {
                let lines = self.receive_text(b.as_slice());
                let ghost ls = lines@.map_values(|l: Vec<u8>| l@);
                let mut i: usize = 0;
                while i < lines.len()
                    invariant
                        i <= lines@.len(),
                        ls == lines@.map_values(|l: Vec<u8>| l@),
                        events_view(out@) == line_events(ls.subrange(0, i as int)),
                    decreases lines@.len() - i,
                {
                    let line = Line::from_text(lossy_text(lines[i].as_slice()).as_str(), false);
                    let ghost before = out@;
                    out.push(Event::ServerOutput(line));
                    assert(events_view(out@) =~= events_view(before).push(out@.last()@));
                    assert(line_events(ls.subrange(0, i + 1)) =~= line_events(ls.subrange(0, i as int)).push(
                        EventView::ServerOutput(received_line(ls[i as int], false)),
                    ));
                    i = i + 1;
                }
                assert(ls.subrange(0, ls.len() as int) =~= ls);
            },
            TelnetEvent::Iac(c) => {
                if c == GA || c == EOR {
                    let p = self.take_prompt();
                    let line = Line::from_text(lossy_text(p.as_slice()).as_str(), true);
                    out.push(Event::ServerOutput(line));
                }
            },
            TelnetEvent::Subnegotiation(o, b) => {
                if o == GMCP {
                    match decode_text(b) {
                        Some(s) => out.push(Event::GMCPReceive(s)),
                        None => {
                            proof { reveal_strlit("Malformed GMCP message"); }
                            out.push(Event::Error("Malformed GMCP message".to_owned()));
                        },
                    }
                }
            },
            TelnetEvent::Negotiation(c, o) => {
                if o == GMCP && (c == WILL || c == DO) {
                    out.push(Event::GMCPReady);
                }
            },
            TelnetEvent::DataSend(b) => {
                out.push(Event::ServerWrite(b));
            },
            TelnetEvent::DecompressImmediate(_) => {},
        }
        out
    }

    /// Handles the events of the telnet parser in order; gives what they put
    /// on the bus.
    pub fn handle_events(&mut self, evs: Vec<TelnetEvent>) -> (r: Vec<Event>)
        ensures
            (final(self).buffer@, final(self).prompt@, events_view(r@))
                == handled_all(old(self).buffer@, old(self).prompt@, evs@),
    {
        let mut events = evs;
        let ghost all = events@;
        let n = events.len();
        let mut out: Vec<Event> = Vec::new();
        let mut k: usize = 0;
        proof {
            assert(all.subrange(0, 0) =~= Seq::<TelnetEvent>::empty());
            assert(events_view(out@) =~= Seq::<EventView>::empty());
        }
        while events.len() > 0
            invariant
                k <= all.len(),
                all.len() == n,
                events@ == all.subrange(k as int, all.len() as int),
                (self.buffer@, self.prompt@, events_view(out@))
                    == handled_all(old(self).buffer@, old(self).prompt@, all.subrange(0, k as int)),
            decreases events@.len(),
        {
            let ev = events.remove(0);
            let ghost before = events_view(out@);
            let mut found = self.handle_event(ev);
            let ghost fv = events_view(found@);
            out.append(&mut found);
            assert(events_view(out@) =~= before + fv);
            assert(all.subrange(0, k + 1).drop_last() =~= all.subrange(0, k as int));
            assert(all.subrange(k as int + 1, all.len() as int) =~= events@);
            k = k + 1;
        }
        proof {
            assert(all.subrange(0, k as int) =~= all);
        }
        out
    }
}

/// The parser of a session's byte stream together with its output buffer.
pub struct TelnetReader {
    pub parser: Parser,
    pub output: OutputBuffer,
}

impl TelnetReader {
    pub fn new() -> (r: TelnetReader)
        ensures
            r.output.buffer@.len() == 0,
            r.output.prompt@.len() == 0,
    {
        TelnetReader { parser: new_parser(), output: OutputBuffer::new() }
    }

    /// Feeds received bytes to the parser and hands the events it finds to
    /// the output buffer; gives what they put on the bus.
    pub fn receive(&mut self, data: &[u8]) -> (r: Vec<Event>)
        ensures
            exists|evs: Seq<TelnetEvent>| (final(self).output.buffer@, final(self).output.prompt@, events_view(r@))
                == handled_all(old(self).output.buffer@, old(self).output.prompt@, evs),
    {
        let events = parser_receive(&mut self.parser, data);
        self.output.handle_events(events)
    }
}

} // verus!
