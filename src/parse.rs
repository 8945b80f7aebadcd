//! The commands that the user types at the prompt.
use vstd::prelude::*;
use crate::model::{Connection, ConnectionView, Event, EventView, Line, LineFlags, LineView, strip_styling};
use crate::text::{chars_of, string_of, strings_view};

verus! {

pub const USAGE_CONNECT: &'static str = "USAGE: /connect <host> <port>";
pub const USAGE_CONNECT_PORT: &'static str = "USAGE: /connect <host: String> <port: Positive number>";
pub const USAGE_ADD_SERVER: &'static str = "USAGE: /add_server <name: String> <host: String> <port: Positive number>";
pub const USAGE_REMOVE_SERVER: &'static str = "USAGE: /remove_server <name: String>";
pub const USAGE_LOAD: &'static str = "USAGE: /load <path>";
pub const USAGE_START_LOG: &'static str = "USAGE: /start_log <name>";
pub const USAGE_SET: &'static str = "USAGE: /set <setting> or /set <setting> <new_value>";

/// The characters that separate words: Unicode's White_Space property.
pub open spec fn is_whitespace(c: char) -> bool {
    ||| c == ' '
    ||| ('\t' <= c <= '\r')
    ||| c == '\u{85}'
    ||| c == '\u{a0}'
    ||| c == '\u{1680}'
    ||| ('\u{2000}' <= c <= '\u{200a}')
    ||| c == '\u{2028}'
    ||| c == '\u{2029}'
    ||| c == '\u{202f}'
    ||| c == '\u{205f}'
    ||| c == '\u{3000}'
}

pub fn whitespace(c: char) -> (r: bool)
    ensures
        r == is_whitespace(c),
{
    c == ' ' || ('\t' <= c && c <= '\r') || c == '\u{85}' || c == '\u{a0}' || c == '\u{1680}'
        || ('\u{2000}' <= c && c <= '\u{200a}') || c == '\u{2028}' || c == '\u{2029}'
        || c == '\u{202f}' || c == '\u{205f}' || c == '\u{3000}'
}

pub open spec fn ascii_lower(c: char) -> char {
    if 'A' <= c <= 'Z' {
        ((c as u8) + 32) as char
    } else {
        c
    }
}

/// The text with ASCII capitals made small.
pub open spec fn lower_seq(s: Seq<char>) -> Seq<char> {
    s.map_values(|c: char| ascii_lower(c))
}

pub fn lower_chars(s: &Vec<char>) -> (r: Vec<char>)
    ensures
        r@ == lower_seq(s@),
{
    let mut out: Vec<char> = Vec::new();
    let mut i: usize = 0;
    while i < s.len()
        invariant
            i <= s@.len(),
            out@ == lower_seq(s@.subrange(0, i as int)),
        decreases s@.len() - i,
    {
        let c = s[i];
        let l = if 'A' <= c && c <= 'Z' { ((c as u8) + 32) as char } else { c };
        out.push(l);
        i = i + 1;
        assert(lower_seq(s@.subrange(0, i as int)) =~= lower_seq(s@.subrange(0, i - 1)).push(l));
    }
    assert(s@.subrange(0, s@.len() as int) =~= s@);
    out
}

/// The words of `s`: the maximal runs of characters that are not whitespace.
pub open spec fn words(s: Seq<char>) -> Seq<Seq<char>>
    decreases s.len(),
{
    if s.len() == 0 {
        Seq::empty()
    } else {
        let w = words(s.drop_last());
        let c = s.last();
        if is_whitespace(c) {
            w
        } else if s.len() >= 2 && !is_whitespace(s[s.len() - 2]) && w.len() > 0 {
            w.update(w.len() - 1, w.last().push(c))
        } else {
            w.push(seq![c])
        }
    }
}

/// Splits `s` into its words.
pub fn split_words(s: &Vec<char>) -> (r: Vec<String>)
    ensures
        strings_view(r@) == words(s@),
{
    let mut done: Vec<String> = Vec::new();
    let mut cur: Vec<char> = Vec::new();
    let mut i: usize = 0;
    while i < s.len()
        invariant
            i <= s@.len(),
            words(s@.subrange(0, i as int)) == if cur@.len() > 0 {
                strings_view(done@).push(cur@)
            } else {
                strings_view(done@)
            },
            cur@.len() > 0 <==> (i > 0 && !is_whitespace(s@[i - 1])),
        decreases s@.len() - i,
    {
        let c = s[i];
        let ghost pre = s@.subrange(0, i as int);
        let ghost next = s@.subrange(0, i + 1);
        assert(next.drop_last() =~= pre);
        if whitespace(c) {
            if cur.len() > 0 {
                let w = string_of(cur.as_slice());
                done.push(w);
                assert(strings_view(done@) =~= strings_view(done@.drop_last()).push(w@));
                cur = Vec::new();
            }
        } else if cur.len() > 0 {
            cur.push(c);
        } else {
            cur.push(c);
            assert(cur@ =~= seq![c]);
        }
        i = i + 1;
    }
    if cur.len() > 0 {
        let w = string_of(cur.as_slice());
        done.push(w);
        assert(strings_view(done@) =~= strings_view(done@.drop_last()).push(w@));
    }
    assert(s@.subrange(0, s@.len() as int) =~= s@);
    done
}

pub open spec fn is_digit(c: char) -> bool {
    '0' <= c <= '9'
}

/// The number that a run of decimal digits writes.
pub open spec fn digits_value(d: Seq<char>) -> int
    decreases d.len(),
{
    if d.len() == 0 {
        0
    } else {
        digits_value(d.drop_last()) * 10 + (d.last() as u32 - '0' as u32)
    }
}

/// A port number as an unsigned 16-bit integer is written: an optional `+`,
/// then one or more decimal digits, of value at most 65535.
pub open spec fn parse_port(w: Seq<char>) -> Option<u16> {
    let d = port_digits(w);
    if d.len() > 0 && all_digits(d) && digits_value(d) <= 65535 {
        Some(digits_value(d) as u16)
    } else {
        None
    }
}

/// The digits of a port number, after the optional sign.
pub open spec fn port_digits(w: Seq<char>) -> Seq<char> {
    if w.len() > 0 && w[0] == '+' {
        w.drop_first()
    } else {
        w
    }
}

pub open spec fn all_digits(d: Seq<char>) -> bool {
    forall|i: int| 0 <= i < d.len() ==> is_digit(#[trigger] d[i])
}

proof fn lemma_digits_grow(d: Seq<char>, k: int)
    requires
        0 <= k <= d.len(),
        forall|i: int| 0 <= i < d.len() ==> is_digit(#[trigger] d[i]),
    ensures
        digits_value(d) >= digits_value(d.subrange(0, k)),
    decreases d.len(),
{
    if k < d.len() {
        assert(d.drop_last().subrange(0, k) =~= d.subrange(0, k));
        lemma_digits_grow(d.drop_last(), k);
        assert(digits_value(d.drop_last()) >= 0) by {
            lemma_digits_nonneg(d.drop_last());
        }
    } else {
        assert(d.subrange(0, k) =~= d);
    }
}

proof fn lemma_digits_nonneg(d: Seq<char>)
    requires
        forall|i: int| 0 <= i < d.len() ==> is_digit(#[trigger] d[i]),
    ensures
        digits_value(d) >= 0,
    decreases d.len(),
{
    if d.len() > 0 {
        lemma_digits_nonneg(d.drop_last());
    }
}

/// Reads a port number.
pub fn port_of(w: &str) -> (r: Option<u16>)
    ensures
        r == parse_port(w@),
{
    let cs = chars_of(w);
    let start: usize = if cs.len() > 0 && cs[0] == '+' { 1 } else { 0 };
    let ghost d = port_digits(cs@);
    assert(d =~= cs@.subrange(start as int, cs@.len() as int));
    if start >= cs.len() {
        return None;
    }
    let mut acc: u32 = 0;
    let mut i: usize = start;
    while i < cs.len()
        invariant
            start <= i <= cs@.len(),
            cs@ == w@,
            d == port_digits(cs@),
            d == cs@.subrange(start as int, cs@.len() as int),
            forall|j: int| 0 <= j < i - start ==> is_digit(#[trigger] d[j]),
            acc == digits_value(d.subrange(0, i - start)),
            acc <= 65535,
        decreases cs@.len() - i,
    {
        let c = cs[i];
        assert(d[i - start] == c);
        if !('0' <= c && c <= '9') {
            assert(!is_digit(d[i - start]));
            assert(!all_digits(d));
            assert(parse_port(w@) is None);
            return None;
        }
        let ghost pre = d.subrange(0, i - start);
        acc = acc * 10 + (c as u32 - '0' as u32);
        i = i + 1;
        let ghost cur = d.subrange(0, i - start);
        assert(cur.drop_last() =~= pre);
        assert(cur.last() == c);
        assert(acc == digits_value(cur));
        if acc > 65535 {
            proof {
                if all_digits(d) {
                    lemma_digits_grow(d, i - start);
                }
            }
            assert(parse_port(w@) is None);
            return None;
        }
    }
    assert(d.subrange(0, d.len() as int) =~= d);
    Some(acc as u16)
}

/// A line as typed, with no flags set.
pub open spec fn typed_line(msg: Seq<char>) -> LineView {
    LineView { content: msg, clean: strip_styling(msg), flags: LineFlags::none() }
}

/// Whether the fourth word on the line asks for TLS.
pub open spec fn tls_at(ws: Seq<Seq<char>>, i: int) -> bool {
    ws.len() > i && ws[i] == "tls"@
}

pub open spec fn connect_event(ws: Seq<Seq<char>>) -> EventView {
    if ws.len() == 1 {
        EventView::Info(USAGE_CONNECT@)
    } else if ws.len() == 2 {
        EventView::LoadServer(ws[1])
    } else {
        match parse_port(ws[2]) {
            Some(port) => EventView::Connect(ConnectionView { host: ws[1], port, tls: tls_at(ws, 3) }),
            None => EventView::Error(USAGE_CONNECT_PORT@),
        }
    }
}

pub open spec fn add_server_event(ws: Seq<Seq<char>>) -> EventView {
    if ws.len() < 4 {
        EventView::Info(USAGE_ADD_SERVER@)
    } else {
        match parse_port(ws[3]) {
            Some(port) => EventView::AddServer(
                ws[1],
                ConnectionView { host: ws[2], port, tls: tls_at(ws, 4) },
            ),
            None => EventView::Error(USAGE_ADD_SERVER@),
        }
    }
}

pub open spec fn set_event(ws: Seq<Seq<char>>) -> EventView {
    if ws.len() == 1 {
        EventView::Info(USAGE_SET@)
    } else if ws.len() >= 3 {
        EventView::ToggleSetting(ws[1], ws[2])
    } else {
        EventView::ShowSetting(ws[1])
    }
}

/// The event that a typed line stands for. The line is read in lower case and
/// split into words; a known command in the first word gives its event, or a
/// usage message when its arguments do not fit; anything else goes to the
/// server as typed.
pub open spec fn command_event(msg: Seq<char>) -> EventView {
    let ws = words(lower_seq(msg));
    if ws.len() == 0 {
        EventView::ServerInput(typed_line(msg))
    } else {
        let c = ws[0];
        if c == "/connect"@ {
            connect_event(ws)
        } else if c == "/disconnect"@ || c == "/dc"@ {
            EventView::Disconnect(0)
        } else if c == "/reconnect"@ || c == "/rc"@ {
            EventView::Reconnect
        } else if c == "/add_server"@ {
            add_server_event(ws)
        } else if c == "/remove_server"@ {
            if ws.len() >= 2 { EventView::RemoveServer(ws[1]) } else { EventView::Info(USAGE_REMOVE_SERVER@) }
        } else if c == "/list_servers"@ || c == "/ls"@ {
            EventView::ListServers
        } else if c == "/load"@ {
            if ws.len() >= 2 { EventView::LoadScript(ws[1]) } else { EventView::Info(USAGE_LOAD@) }
        } else if c == "/help"@ {
            EventView::ShowHelp(if ws.len() >= 2 { ws[1] } else { "help"@ })
        } else if c == "/start_log"@ {
            if ws.len() >= 2 { EventView::StartLogging(ws[1], true) } else { EventView::Info(USAGE_START_LOG@) }
        } else if c == "/stop_log"@ {
            EventView::StopLogging
        } else if c == "/settings"@ {
            EventView::ShowSettings
        } else if c == "/set"@ {
            set_event(ws)
        } else if c == "/quit"@ || c == "/q"@ {
            EventView::Quit
        } else {
            EventView::ServerInput(typed_line(msg))
        }
    }
}

/// Whether two strings hold the same characters.
pub fn same_text(a: &str, b: &str) -> (r: bool)
    ensures
        r == (a@ == b@),
{
    let x = chars_of(a);
    let y = chars_of(b);
    if x.len() != y.len() {
        return false;
    }
    let mut i: usize = 0;
    while i < x.len()
        invariant
            x@.len() == y@.len(),
            x@ == a@,
            y@ == b@,
            i <= x@.len(),
            forall|j: int| 0 <= j < i ==> x@[j] == y@[j],
        decreases x@.len() - i,
    {
        if x[i] != y[i] {
            assert(x@[i as int] != y@[i as int]);
            return false;
        }
        i = i + 1;
    }
    assert(x@ =~= y@);
    true
}

fn connect_command(ws: &Vec<String>) -> (r: Event)
    requires
        ws@.len() >= 1,
    ensures
        r@ == connect_event(strings_view(ws@)),
{
    let n = ws.len();
    if n == 1 {
        Event::Info(USAGE_CONNECT.to_owned())
    } else if n == 2 {
        Event::LoadServer(ws[1].clone())
    } else {
        let tls = n > 3 && same_text(ws[3].as_str(), "tls");
        match port_of(ws[2].as_str()) {
            Some(port) => Event::Connect(Connection::new(ws[1].as_str(), port, tls)),
            None => Event::Error(USAGE_CONNECT_PORT.to_owned()),
        }
    }
}

fn add_server_command(ws: &Vec<String>) -> (r: Event)
    requires
        ws@.len() >= 1,
    ensures
        r@ == add_server_event(strings_view(ws@)),
{
    let n = ws.len();
    if n < 4 {
        Event::Info(USAGE_ADD_SERVER.to_owned())
    } else {
        let tls = n > 4 && same_text(ws[4].as_str(), "tls");
        match port_of(ws[3].as_str()) {
            Some(port) => Event::AddServer(ws[1].clone(), Connection::new(ws[2].as_str(), port, tls)),
            None => Event::Error(USAGE_ADD_SERVER.to_owned()),
        }
    }
}

fn set_command(ws: &Vec<String>) -> (r: Event)
    requires
        ws@.len() >= 1,
    ensures
        r@ == set_event(strings_view(ws@)),
{
    let n = ws.len();
    if n == 1 {
        Event::Info(USAGE_SET.to_owned())
    } else if n >= 3 {
        Event::ToggleSetting(ws[1].clone(), ws[2].clone())
    } else {
        Event::ShowSetting(ws[1].clone())
    }
}

/// Turns a line typed at the prompt into the event it stands for.
pub fn parse_command(msg: &str) -> (r: Event)
    ensures
        r@ == command_event(msg@),
{
    let lc = lower_chars(&chars_of(msg));
    let ws = split_words(&lc);
    let n = ws.len();
    if n == 0 {
        return Event::ServerInput(Line::from(msg));
    }
    let c = ws[0].as_str();
    if same_text(c, "/connect") {
        connect_command(&ws)
    } else if same_text(c, "/disconnect") || same_text(c, "/dc") {
        Event::Disconnect(0)
    } else if same_text(c, "/reconnect") || same_text(c, "/rc") {
        Event::Reconnect
    } else if same_text(c, "/add_server") {
        add_server_command(&ws)
    } else if same_text(c, "/remove_server") {
        if n >= 2 {
            Event::RemoveServer(ws[1].clone())
        } else {
            Event::Info(USAGE_REMOVE_SERVER.to_owned())
        }
    } else if same_text(c, "/list_servers") || same_text(c, "/ls") {
        Event::ListServers
    } else if same_text(c, "/load") {
        if n >= 2 {
            Event::LoadScript(ws[1].clone())
        } else {
            Event::Info(USAGE_LOAD.to_owned())
        }
    } else if same_text(c, "/help") {
        if n >= 2 {
            Event::ShowHelp(ws[1].clone())
        } else {
            Event::ShowHelp("help".to_owned())
        }
    } else if same_text(c, "/start_log") {
        if n >= 2 {
            Event::StartLogging(ws[1].clone(), true)
        } else {
            Event::Info(USAGE_START_LOG.to_owned())
        }
    } else if same_text(c, "/stop_log") {
        Event::StopLogging
    } else if same_text(c, "/settings") {
        Event::ShowSettings
    } else if same_text(c, "/set") {
        set_command(&ws)
    } else if same_text(c, "/quit") || same_text(c, "/q") {
        Event::Quit
    } else {
        Event::ServerInput(Line::from(msg))
    }
}

} // verus!
