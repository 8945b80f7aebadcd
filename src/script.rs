//! The script host: the tables of rules that user scripts register, and their
//! dispatch. Callbacks are handles into the sandbox that runs the scripts;
//! dispatch queues the calls to make, in order, for the sandbox to run.
use vstd::prelude::*;
use crate::model::{Event, EventView, Line, LineFlags, LineView};
use crate::pattern::{Pattern, is_match, match_texts, regex_compiles};
use crate::command::{next_space, UiEvent};
use crate::text::{chars_of, string_of, strings_view};

verus! {

/// Why a registration failed.
#[derive(Clone, Copy, Debug, PartialEq, Eq, Structural)]
pub enum ScriptError {
    /// The pattern is no valid regular expression.
    InvalidPattern,
    /// Every id has been handed out.
    IdsExhausted,
}

/// An alias or a trigger.
pub struct Rule {
    pub id: u32,
    pub pattern: Pattern,
    pub enabled: bool,
    pub gag: bool,
    pub callback: u32,
}

pub struct RuleView {
    pub id: u32,
    pub pattern: Seq<char>,
    pub enabled: bool,
    pub gag: bool,
    pub callback: u32,
}

impl View for Rule {
    type V = RuleView;

    open spec fn view(&self) -> RuleView {
        RuleView {
            id: self.id,
            pattern: self.pattern@,
            enabled: self.enabled,
            gag: self.gag,
            callback: self.callback,
        }
    }
}

/// A call for the sandbox to make.
#[derive(Debug)]
pub enum Call {
    /// A registered callback, with its arguments.
    Callback(u32, Vec<String>),
    /// The script's connection hook, with host and port.
    OnConnect(String, u16),
    /// The script's hook for when the server agreed to GMCP.
    OnGmcpReady,
}

pub enum CallView {
    Callback(u32, Seq<Seq<char>>),
    OnConnect(Seq<char>, u16),
    OnGmcpReady,
}

impl View for Call {
    type V = CallView;

    open spec fn view(&self) -> CallView {
        match self {
            Call::Callback(cb, args) => CallView::Callback(*cb, strings_view(args@)),
            Call::OnConnect(host, port) => CallView::OnConnect(host@, *port),
            Call::OnGmcpReady => CallView::OnGmcpReady,
        }
    }
}

pub open spec fn rules_view(v: Seq<Rule>) -> Seq<RuleView> {
    v.map_values(|r: Rule| r@)
}

pub open spec fn calls_view(v: Seq<Call>) -> Seq<CallView> {
    v.map_values(|c: Call| c@)
}

/// Whether the rule is enabled and its pattern matches `text`.
pub open spec fn hits(r: RuleView, text: Seq<char>) -> bool {
    r.enabled && is_match(r.pattern, text)
}

/// The calls that dispatching `text` over `rules` makes: one for each rule
/// that hits, in table order, with the texts of the capture groups.
pub open spec fn rule_calls(rules: Seq<RuleView>, text: Seq<char>) -> Seq<CallView>
    decreases rules.len(),
{
    if rules.len() == 0 {
        Seq::empty()
    } else {
        let r = rules.last();
        rule_calls(rules.drop_last(), text) + if hits(r, text) {
            seq![CallView::Callback(r.callback, match_texts(r.pattern, text))]
        } else {
            Seq::empty()
        }
    }
}

pub open spec fn any_hit(rules: Seq<RuleView>, text: Seq<char>) -> bool {
    exists|i: int| 0 <= i < rules.len() && hits(#[trigger] rules[i], text)
}

pub open spec fn any_gag_hit(rules: Seq<RuleView>, text: Seq<char>) -> bool {
    exists|i: int| 0 <= i < rules.len() && hits(#[trigger] rules[i], text) && rules[i].gag
}

/// The rules without the one of the given id.
pub open spec fn without_id(rules: Seq<RuleView>, id: u32) -> Seq<RuleView>
    decreases rules.len(),
{
    if rules.len() == 0 {
        Seq::empty()
    } else {
        without_id(rules.drop_last(), id) + if rules.last().id == id {
            Seq::empty()
        } else {
            seq![rules.last()]
        }
    }
}

pub open spec fn has_id(rules: Seq<RuleView>, id: u32) -> bool {
    exists|i: int| 0 <= i < rules.len() && (#[trigger] rules[i]).id == id
}

/// Ids rise along the table and stay below `next`.
pub open spec fn ids_ordered(rules: Seq<RuleView>, next: u32) -> bool {
    &&& forall|i: int, j: int| 0 <= i < j < rules.len() ==> (#[trigger] rules[i]).id < (#[trigger] rules[j]).id
    &&& forall|i: int| 0 <= i < rules.len() ==> (#[trigger] rules[i]).id < next
}

pub open spec fn ids_disjoint(a: Seq<RuleView>, b: Seq<RuleView>) -> bool {
    forall|i: int, j: int| 0 <= i < a.len() && 0 <= j < b.len() ==> (#[trigger] a[i]).id != (#[trigger] b[j]).id
}

proof fn lemma_without_absent(rules: Seq<RuleView>, id: u32)
    requires
        !has_id(rules, id),
    ensures
        without_id(rules, id) == rules,
    decreases rules.len(),
{
    if rules.len() > 0 {
        let d = rules.drop_last();
        assert(!has_id(d, id)) by {
            if has_id(d, id) {
                let i = choose|i: int| 0 <= i < d.len() && (#[trigger] d[i]).id == id;
                assert(rules[i].id == id);
            }
        }
        lemma_without_absent(d, id);
        assert(rules.last().id != id) by {
            assert(rules[rules.len() - 1].id == rules.last().id);
        }
        assert(d + seq![rules.last()] =~= rules);
    }
}

proof fn lemma_without_one(rules: Seq<RuleView>, id: u32, i: int)
    requires
        0 <= i < rules.len(),
        rules[i].id == id,
        forall|k: int| 0 <= k < rules.len() && k != i ==> (#[trigger] rules[k]).id != id,
    ensures
        without_id(rules, id) == rules.remove(i),
    decreases rules.len(),
{
    let d = rules.drop_last();
    if i == rules.len() - 1 {
        assert(!has_id(d, id)) by {
            if has_id(d, id) {
                let k = choose|k: int| 0 <= k < d.len() && (#[trigger] d[k]).id == id;
                assert(rules[k].id == id);
            }
        }
        lemma_without_absent(d, id);
        assert(rules.remove(i) =~= d);
        assert(without_id(rules, id) =~= d);
    } else {
        assert forall|k: int| 0 <= k < d.len() && k != i implies (#[trigger] d[k]).id != id by {
            assert(rules[k].id != id);
        }
        lemma_without_one(d, id, i);
        assert(rules.last().id != id) by {
            assert(rules[rules.len() - 1].id == rules.last().id);
        }
        assert(d.remove(i) + seq![rules.last()] =~= rules.remove(i));
    }
}

proof fn lemma_without_ordered(rules: Seq<RuleView>, id: u32, next: u32)
    requires
        ids_ordered(rules, next),
    ensures
        ids_ordered(without_id(rules, id), next),
        forall|k: int| 0 <= k < without_id(rules, id).len() ==> exists|j: int|
            0 <= j < rules.len() && #[trigger] without_id(rules, id)[k] == rules[j],
    decreases rules.len(),
{
    if rules.len() > 0 {
        let d = rules.drop_last();
        let l = rules.last();
        assert(ids_ordered(d, next)) by {
            assert forall|i: int, j: int| 0 <= i < j < d.len() implies (#[trigger] d[i]).id < (#[trigger] d[j]).id by {
                assert(d[i] == rules[i] && d[j] == rules[j]);
            }
            assert forall|i: int| 0 <= i < d.len() implies (#[trigger] d[i]).id < next by {
                assert(d[i] == rules[i]);
            }
        }
        lemma_without_ordered(d, id, next);
        let wd = without_id(d, id);
        let w = without_id(rules, id);
        assert forall|k: int| 0 <= k < wd.len() implies (#[trigger] wd[k]).id < l.id by {
            let j = choose|j: int| 0 <= j < d.len() && #[trigger] wd[k] == d[j];
            assert(rules[j] == d[j]);
            assert(rules[rules.len() - 1] == l);
        }
        assert forall|k: int| 0 <= k < w.len() implies exists|j: int|
            0 <= j < rules.len() && #[trigger] w[k] == rules[j] by {
            if k < wd.len() {
                assert(w[k] == wd[k]);
                let j = choose|j: int| 0 <= j < d.len() && #[trigger] wd[k] == d[j];
                assert(rules[j] == d[j]);
            } else {
                assert(w[k] == rules[rules.len() - 1]);
            }
        }
        assert forall|i: int, j: int| 0 <= i < j < w.len() implies (#[trigger] w[i]).id < (#[trigger] w[j]).id by {
            if j < wd.len() {
                assert(w[i] == wd[i] && w[j] == wd[j]);
            } else {
                assert(w[i] == wd[i]);
                assert(w[j] == l);
            }
        }
        assert forall|i: int| 0 <= i < w.len() implies (#[trigger] w[i]).id < next by {
            let j = choose|j: int| 0 <= j < rules.len() && #[trigger] w[i] == rules[j];
        }
    }
}

/// Removes the rule with the given id, keeping the others in order.
fn remove_rule(rules: &mut Vec<Rule>, id: u32) -> (r: bool)
    requires
        forall|i: int, j: int| 0 <= i < j < old(rules)@.len()
            ==> (#[trigger] rules_view(old(rules)@)[i]).id < (#[trigger] rules_view(old(rules)@)[j]).id,
    ensures
        r == has_id(rules_view(old(rules)@), id),
        rules_view(final(rules)@) == without_id(rules_view(old(rules)@), id),
        forall|k: int| 0 <= k < final(rules)@.len() ==> exists|j: int|
            0 <= j < old(rules)@.len() && (#[trigger] final(rules)@[k]).id == (#[trigger] old(rules)@[j]).id,
{
    let ghost v = rules_view(rules@);
    let mut i: usize = 0;
    while i < rules.len()
        invariant
            i <= rules@.len(),
            v == rules_view(rules@),
            rules@ == old(rules)@,
            forall|a: int, b: int| 0 <= a < b < v.len() ==> (#[trigger] v[a]).id < (#[trigger] v[b]).id,
            forall|k: int| 0 <= k < i ==> (#[trigger] rules@[k]).id != id,
        decreases rules@.len() - i,
    {
        if rules[i].id == id {
            proof {
                assert forall|k: int| 0 <= k < v.len() && k != i implies (#[trigger] v[k]).id != id by {
                    if k > i {
                        assert(v[i as int].id < v[k].id);
                    }
                }
                lemma_without_one(v, id, i as int);
            }
            rules.remove(i);
            assert(rules_view(rules@) =~= v.remove(i as int));
            assert forall|k: int| 0 <= k < rules@.len() implies exists|j: int|
                0 <= j < old(rules)@.len() && (#[trigger] rules@[k]).id == (#[trigger] old(rules)@[j]).id by {
                if k < i {
                    assert(rules@[k] == old(rules)@[k]);
                } else {
                    assert(rules@[k] == old(rules)@[k + 1]);
                }
            }
            return true;
        }
        i = i + 1;
    }
    proof {
        assert(!has_id(v, id)) by {
            if has_id(v, id) {
                let k = choose|k: int| 0 <= k < v.len() && (#[trigger] v[k]).id == id;
                assert(rules@[k].id == id);
            }
        }
        lemma_without_absent(v, id);
    }
    false
}

/// Dispatches `text` over `rules`: queues a call for each rule that hits and
/// says whether any hit, and whether any gagging one did.
fn run_rules(rules: &Vec<Rule>, text: &str, calls: &mut Vec<Call>) -> (r: (bool, bool))
    ensures
        calls_view(final(calls)@) == calls_view(old(calls)@) + rule_calls(rules_view(rules@), text@),
        r.0 == any_hit(rules_view(rules@), text@),
        r.1 == any_gag_hit(rules_view(rules@), text@),
{
    let ghost v = rules_view(rules@);
    let mut matched = false;
    let mut gag = false;
    let mut i: usize = 0;
    while i < rules.len()
        invariant
            i <= rules@.len(),
            v == rules_view(rules@),
            calls_view(calls@) == calls_view(old(calls)@) + rule_calls(v.subrange(0, i as int), text@),
            matched == any_hit(v.subrange(0, i as int), text@),
            gag == any_gag_hit(v.subrange(0, i as int), text@),
        decreases rules@.len() - i,
    {
        let ghost pre = v.subrange(0, i as int);
        let ghost next = v.subrange(0, i + 1);
        assert(next.drop_last() =~= pre);
        assert(next.last() == v[i as int]);
        let rule = &rules[i];
        if rule.enabled {
            match rule.pattern.captures(text) {
                Some(caps) => {
                    let ghost before = calls@;
                    let cb = rule.callback;
                    calls.push(Call::Callback(cb, caps));
                    assert(calls_view(calls@) =~= calls_view(before).push(calls@.last()@));
                    matched = true;
                    if rule.gag {
                        gag = true;
                    }
                },
                None => {},
            }
        }
        proof {
            assert(calls_view(calls@) =~= calls_view(old(calls)@) + rule_calls(next, text@));
            if any_hit(next, text@) {
                let k = choose|k: int| 0 <= k < next.len() && hits(#[trigger] next[k], text@);
                if k < i {
                    assert(pre[k] == next[k]);
                }
            }
            if any_hit(pre, text@) {
                let k = choose|k: int| 0 <= k < pre.len() && hits(#[trigger] pre[k], text@);
                assert(next[k] == pre[k]);
            }
            if any_gag_hit(next, text@) {
                let k = choose|k: int| 0 <= k < next.len() && hits(#[trigger] next[k], text@) && next[k].gag;
                if k < i {
                    assert(pre[k] == next[k]);
                }
            }
            if any_gag_hit(pre, text@) {
                let k = choose|k: int| 0 <= k < pre.len() && hits(#[trigger] pre[k], text@) && pre[k].gag;
                assert(next[k] == pre[k]);
            }
            if hits(v[i as int], text@) {
                assert(hits(next[i as int], text@));
            }
        }
        i = i + 1;
    }
    assert(v.subrange(0, v.len() as int) =~= v);
    (matched, gag)
}

/// A handler registered under a name: a GMCP message type or a key name.
pub struct Handler {
    pub name: String,
    pub callback: u32,
}

pub struct HandlerView {
    pub name: Seq<char>,
    pub callback: u32,
}

impl View for Handler {
    type V = HandlerView;

    open spec fn view(&self) -> HandlerView {
        HandlerView { name: self.name@, callback: self.callback }
    }
}

pub open spec fn handlers_view(v: Seq<Handler>) -> Seq<HandlerView> {
    v.map_values(|h: Handler| h@)
}

/// The first position at or after `i` of a handler named `name`, or -1.
pub open spec fn find_from(hs: Seq<HandlerView>, name: Seq<char>, i: int) -> int
    decreases hs.len() - i,
{
    if i < 0 || i >= hs.len() {
        -1
    } else if hs[i].name == name {
        i
    } else {
        find_from(hs, name, i + 1)
    }
}

/// The callback registered under `name`.
pub open spec fn handler_for(hs: Seq<HandlerView>, name: Seq<char>) -> Option<u32> {
    let k = find_from(hs, name, 0);
    if 0 <= k < hs.len() {
        Some(hs[k].callback)
    } else {
        None
    }
}

/// The handlers after `callback` is registered under `name`, in place of any
/// earlier one.
pub open spec fn with_handler(hs: Seq<HandlerView>, name: Seq<char>, callback: u32) -> Seq<HandlerView> {
    let k = find_from(hs, name, 0);
    if 0 <= k < hs.len() {
        hs.update(k, HandlerView { name, callback })
    } else {
        hs.push(HandlerView { name, callback })
    }
}

proof fn lemma_find_from_bounds(hs: Seq<HandlerView>, name: Seq<char>, i: int)
    requires
        0 <= i,
    ensures
        find_from(hs, name, i) == -1 || (i <= find_from(hs, name, i) < hs.len()
            && hs[find_from(hs, name, i)].name == name),
    decreases hs.len() - i,
{
    if i < hs.len() && hs[i].name != name {
        lemma_find_from_bounds(hs, name, i + 1);
    }
}

fn find_handler(hs: &Vec<Handler>, name: &str) -> (r: Option<usize>)
    ensures
        match r {
            Some(i) => i == find_from(handlers_view(hs@), name@, 0) && i < hs@.len(),
            None => find_from(handlers_view(hs@), name@, 0) == -1,
        },
{
    let ghost v = handlers_view(hs@);
    let mut i: usize = 0;
    while i < hs.len()
        invariant
            i <= hs@.len(),
            v == handlers_view(hs@),
            find_from(v, name@, 0) == find_from(v, name@, i as int),
        decreases hs@.len() - i,
    {
        if crate::parse::same_text(hs[i].name.as_str(), name) {
            return Some(i);
        }
        i = i + 1;
    }
    None
}

/// Registers `callback` under `name`, in place of any earlier handler.
fn set_handler(hs: &mut Vec<Handler>, name: &str, callback: u32)
    ensures
        handlers_view(final(hs)@) == with_handler(handlers_view(old(hs)@), name@, callback),
{
    let h = Handler { name: name.to_owned(), callback };
    match find_handler(hs, name) {
        Some(i) => {
            hs.set(i, h);
            assert(handlers_view(hs@) =~= handlers_view(old(hs)@).update(i as int, h@));
        },
        None => {
            hs.push(h);
            assert(handlers_view(hs@) =~= handlers_view(old(hs)@).push(h@));
        },
    }
}

/// The callback registered under `name`.
fn lookup_handler(hs: &Vec<Handler>, name: &str) -> (r: Option<u32>)
    ensures
        r == handler_for(handlers_view(hs@), name@),
{
    match find_handler(hs, name) {
        Some(i) => Some(hs[i].callback),
        None => None,
    }
}

/// Registering again under a name replaces the earlier handler: looking the
/// name up afterwards finds the new callback.
pub proof fn lemma_handler_replaced(hs: Seq<HandlerView>, name: Seq<char>, callback: u32)
    ensures
        handler_for(with_handler(hs, name, callback), name) == Some(callback),
{
    let k = find_from(hs, name, 0);
    lemma_find_from_bounds(hs, name, 0);
    let after = with_handler(hs, name, callback);
    lemma_find_prefix(hs, after, name, 0, if 0 <= k < hs.len() { k } else { hs.len() as int });
}

proof fn lemma_find_prefix(hs: Seq<HandlerView>, after: Seq<HandlerView>, name: Seq<char>, i: int, k: int)
    requires
        0 <= i <= k < after.len(),
        k <= hs.len(),
        after[k].name == name,
        forall|j: int| i <= j < k ==> (#[trigger] after[j]).name == hs[j].name,
        find_from(hs, name, i) == find_from(hs, name, 0),
        find_from(hs, name, 0) == -1 || find_from(hs, name, 0) == k,
        k < hs.len() ==> find_from(hs, name, 0) == k,
    ensures
        find_from(after, name, i) == k,
    decreases k - i,
{
    if i < k {
        assert(hs[i].name != name);
        lemma_find_prefix(hs, after, name, i + 1, k);
    }
}

/// A function that a script asked to run after a delay, once or repeatedly.
#[derive(Clone, Copy, Debug, PartialEq, Eq, Structural)]
pub struct TimedFunction {
    pub id: u32,
    pub callback: u32,
    pub seconds: u32,
    pub repeat: bool,
}

pub open spec fn timers_ordered(ts: Seq<TimedFunction>, next: u32) -> bool {
    &&& forall|i: int, j: int| 0 <= i < j < ts.len() ==> (#[trigger] ts[i]).id < (#[trigger] ts[j]).id
    &&& forall|i: int| 0 <= i < ts.len() ==> (#[trigger] ts[i]).id < next
}

/// The position of the timer with the given id, or -1.
pub open spec fn timer_index(ts: Seq<TimedFunction>, id: u32) -> int {
    if exists|i: int| 0 <= i < ts.len() && (#[trigger] ts[i]).id == id {
        choose|i: int| 0 <= i < ts.len() && (#[trigger] ts[i]).id == id
    } else {
        -1
    }
}

/// The timers without the one of the given id.
pub open spec fn timers_without(ts: Seq<TimedFunction>, id: u32) -> Seq<TimedFunction> {
    let k = timer_index(ts, id);
    if k >= 0 { ts.remove(k) } else { ts }
}

/// The ids in a schedule of `(id, due time)` whose due time has come, in
/// schedule order.
pub open spec fn due_ids(schedule: Seq<(u32, u64)>, now: u64) -> Seq<u32>
    decreases schedule.len(),
{
    if schedule.len() == 0 {
        Seq::empty()
    } else {
        due_ids(schedule.drop_last(), now) + if schedule.last().1 <= now {
            seq![schedule.last().0]
        } else {
            Seq::empty()
        }
    }
}

/// The ids of the timers in `schedule` that are due at `now`.
pub fn due_timers(schedule: &Vec<(u32, u64)>, now: u64) -> (r: Vec<u32>)
    ensures
        r@ == due_ids(schedule@, now),
{
    let mut r: Vec<u32> = Vec::new();
    let mut i: usize = 0;
    while i < schedule.len()
        invariant
            i <= schedule@.len(),
            r@ == due_ids(schedule@.subrange(0, i as int), now),
        decreases schedule@.len() - i,
    {
        let (id, at) = schedule[i];
        assert(schedule@.subrange(0, i + 1).drop_last() =~= schedule@.subrange(0, i as int));
        if at <= now {
            r.push(id);
        }
        i = i + 1;
    }
    assert(schedule@.subrange(0, schedule@.len() as int) =~= schedule@);
    r
}

fn find_timer(ts: &Vec<TimedFunction>, id: u32) -> (r: Option<usize>)
    requires
        forall|i: int, j: int| 0 <= i < j < ts@.len() ==> (#[trigger] ts@[i]).id < (#[trigger] ts@[j]).id,
    ensures
        match r {
            Some(i) => i as int == timer_index(ts@, id) && i < ts@.len(),
            None => timer_index(ts@, id) == -1,
        },
{
    let mut i: usize = 0;
    while i < ts.len()
        invariant
            i <= ts@.len(),
            forall|k: int| 0 <= k < i ==> (#[trigger] ts@[k]).id != id,
            forall|a: int, b: int| 0 <= a < b < ts@.len() ==> (#[trigger] ts@[a]).id < (#[trigger] ts@[b]).id,
        decreases ts@.len() - i,
    {
        if ts[i].id == id {
            proof {
                let k = timer_index(ts@, id);
                if k != i {
                    if k < i {
                        assert(ts@[k].id < ts@[i as int].id);
                    } else {
                        assert(ts@[i as int].id < ts@[k].id);
                    }
                }
            }
            return Some(i);
        }
        i = i + 1;
    }
    None
}

/// The tables of rules, handlers and timers that scripts register, with the
/// calls and events that dispatch leaves for the sandbox and the bus.
pub struct LuaScript {
    pub aliases: Vec<Rule>,
    pub triggers: Vec<Rule>,
    pub prompt_triggers: Vec<Rule>,
    pub gmcp_listeners: Vec<Handler>,
    pub bindings: Vec<Handler>,
    pub timers: Vec<TimedFunction>,
    pub next_id: u32,
    pub on_connect_triggered: bool,
    pub dimensions: (u16, u16),
    pub calls: Vec<Call>,
    pub events: Vec<Event>,
    pub output_lines: Vec<Line>,
    pub ui_events: Vec<UiEvent>,
}

impl LuaScript {
    pub open spec fn aliases_view(&self) -> Seq<RuleView> {
        rules_view(self.aliases@)
    }

    pub open spec fn triggers_view(&self) -> Seq<RuleView> {
        rules_view(self.triggers@)
    }

    pub open spec fn prompt_triggers_view(&self) -> Seq<RuleView> {
        rules_view(self.prompt_triggers@)
    }

    pub open spec fn calls_view(&self) -> Seq<CallView> {
        calls_view(self.calls@)
    }

    /// Ids rise along each table and stay below the next id; the two trigger
    /// tables share no id.
    pub open spec fn wf(&self) -> bool {
        &&& ids_ordered(self.aliases_view(), self.next_id)
        &&& ids_ordered(self.triggers_view(), self.next_id)
        &&& ids_ordered(self.prompt_triggers_view(), self.next_id)
        &&& ids_disjoint(self.triggers_view(), self.prompt_triggers_view())
        &&& timers_ordered(self.timers@, self.next_id)
    }

    /// The rule tables, the timers and the next id.
    pub open spec fn same_tables(&self, o: &LuaScript) -> bool {
        &&& self.aliases == o.aliases
        &&& self.triggers == o.triggers
        &&& self.prompt_triggers == o.prompt_triggers
        &&& self.timers == o.timers
        &&& self.next_id == o.next_id
    }

    /// Everything but the queued calls.
    pub open spec fn same_but_calls(&self, o: &LuaScript) -> bool {
        &&& self.same_tables(o)
        &&& self.gmcp_listeners == o.gmcp_listeners
        &&& self.bindings == o.bindings
        &&& self.on_connect_triggered == o.on_connect_triggered
        &&& self.dimensions == o.dimensions
        &&& self.events == o.events
        &&& self.output_lines == o.output_lines
        &&& self.ui_events == o.ui_events
    }

    /// Everything but the tables of aliases and triggers and the next id.
    pub open spec fn same_rest(&self, o: &LuaScript) -> bool {
        &&& self.gmcp_listeners == o.gmcp_listeners
        &&& self.bindings == o.bindings
        &&& self.timers == o.timers
        &&& self.on_connect_triggered == o.on_connect_triggered
        &&& self.dimensions == o.dimensions
        &&& self.calls == o.calls
        &&& self.events == o.events
        &&& self.output_lines == o.output_lines
        &&& self.ui_events == o.ui_events
    }

    /// Empty tables, no pending calls or events, and the given terminal size.
    pub fn new(dimensions: (u16, u16)) -> (r: LuaScript)
        ensures
            r.wf(),
            r.aliases@.len() == 0,
            r.triggers@.len() == 0,
            r.prompt_triggers@.len() == 0,
            r.gmcp_listeners@.len() == 0,
            r.bindings@.len() == 0,
            r.timers@.len() == 0,
            r.calls@.len() == 0,
            r.events@.len() == 0,
            r.output_lines@.len() == 0,
            r.ui_events@.len() == 0,
            !r.on_connect_triggered,
            r.dimensions == dimensions,
    {
        let r = LuaScript {
            aliases: Vec::new(),
            triggers: Vec::new(),
            prompt_triggers: Vec::new(),
            gmcp_listeners: Vec::new(),
            bindings: Vec::new(),
            timers: Vec::new(),
            next_id: 1,
            on_connect_triggered: false,
            dimensions,
            calls: Vec::new(),
            events: Vec::new(),
            output_lines: Vec::new(),
            ui_events: Vec::new(),
        };
        assert(r.aliases_view() =~= Seq::<RuleView>::empty());
        assert(r.triggers_view() =~= Seq::<RuleView>::empty());
        assert(r.prompt_triggers_view() =~= Seq::<RuleView>::empty());
        r
    }

    /// Drops every table, pending call and timer, and re-arms the connection
    /// hook. Ids keep rising: none is handed out twice.
    pub fn reset(&mut self, dimensions: (u16, u16))
        ensures
            final(self).wf(),
            final(self).aliases@.len() == 0,
            final(self).triggers@.len() == 0,
            final(self).prompt_triggers@.len() == 0,
            final(self).gmcp_listeners@.len() == 0,
            final(self).bindings@.len() == 0,
            final(self).timers@.len() == 0,
            final(self).calls@.len() == 0,
            final(self).output_lines@.len() == 0,
            final(self).ui_events@.len() == 0,
            final(self).events == old(self).events,
            final(self).next_id == old(self).next_id,
            !final(self).on_connect_triggered,
            final(self).dimensions == dimensions,
    {
        self.aliases = Vec::new();
        self.triggers = Vec::new();
        self.prompt_triggers = Vec::new();
        self.gmcp_listeners = Vec::new();
        self.bindings = Vec::new();
        self.timers = Vec::new();
        self.calls = Vec::new();
        self.output_lines = Vec::new();
        self.ui_events = Vec::new();
        self.on_connect_triggered = false;
        self.dimensions = dimensions;
        assert(self.aliases_view() =~= Seq::<RuleView>::empty());
        assert(self.triggers_view() =~= Seq::<RuleView>::empty());
        assert(self.prompt_triggers_view() =~= Seq::<RuleView>::empty());
    }

    /// Registers an alias on `pattern`; its id is the next one.
    pub fn add_alias(&mut self, pattern: &str, callback: u32) -> (r: Result<u32, ScriptError>)
        requires
            old(self).wf(),
        ensures
            final(self).wf(),
            final(self).same_rest(old(self)),
            final(self).triggers == old(self).triggers,
            final(self).prompt_triggers == old(self).prompt_triggers,
            (r == Err::<u32, ScriptError>(ScriptError::IdsExhausted)) == (old(self).next_id == u32::MAX),
            (r == Err::<u32, ScriptError>(ScriptError::InvalidPattern))
                == (old(self).next_id != u32::MAX && !regex_compiles(pattern@)),
            r matches Ok(id) ==> {
                &&& id == old(self).next_id
                &&& final(self).next_id == id + 1
                &&& final(self).aliases_view() == old(self).aliases_view().push(
                    RuleView { id, pattern: pattern@, enabled: true, gag: false, callback },
                )
            },
            r is Err ==> final(self).aliases == old(self).aliases && final(self).next_id == old(self).next_id,
    {
        if self.next_id == u32::MAX {
            return Err(ScriptError::IdsExhausted);
        }
        match Pattern::new(pattern) {
            None => Err(ScriptError::InvalidPattern),
            Some(p) => {
                let id = self.next_id;
                let rule = Rule { id, pattern: p, enabled: true, gag: false, callback };
                self.aliases.push(rule);
                self.next_id = id + 1;
                assert(self.aliases_view() =~= old(self).aliases_view().push(rule@));
                Ok(id)
            },
        }
    }

    /// Removes the alias with the given id; says whether there was one.
    pub fn remove_alias(&mut self, id: u32) -> (r: bool)
        requires
            old(self).wf(),
        ensures
            final(self).wf(),
            final(self).same_rest(old(self)),
            final(self).triggers == old(self).triggers,
            final(self).prompt_triggers == old(self).prompt_triggers,
            final(self).next_id == old(self).next_id,
            r == has_id(old(self).aliases_view(), id),
            final(self).aliases_view() == without_id(old(self).aliases_view(), id),
    {
        let r = remove_rule(&mut self.aliases, id);
        proof { lemma_without_ordered(old(self).aliases_view(), id, self.next_id); }
        r
    }
}

impl LuaScript {
    /// Registers a trigger on `pattern`, in the prompt table when `prompt`
    /// holds; its id is the next one.
    pub fn add_trigger(&mut self, pattern: &str, gag: bool, prompt: bool, callback: u32) -> (r: Result<u32, ScriptError>)
        requires
            old(self).wf(),
        ensures
            final(self).wf(),
            final(self).same_rest(old(self)),
            final(self).aliases == old(self).aliases,
            (r == Err::<u32, ScriptError>(ScriptError::IdsExhausted)) == (old(self).next_id == u32::MAX),
            (r == Err::<u32, ScriptError>(ScriptError::InvalidPattern))
                == (old(self).next_id != u32::MAX && !regex_compiles(pattern@)),
            r matches Ok(id) ==> {
                let added = RuleView { id, pattern: pattern@, enabled: true, gag, callback };
                &&& id == old(self).next_id
                &&& final(self).next_id == id + 1
                &&& prompt ==> final(self).prompt_triggers_view() == old(self).prompt_triggers_view().push(added)
                    && final(self).triggers == old(self).triggers
                &&& !prompt ==> final(self).triggers_view() == old(self).triggers_view().push(added)
                    && final(self).prompt_triggers == old(self).prompt_triggers
            },
            r is Err ==> {
                &&& final(self).triggers == old(self).triggers
                &&& final(self).prompt_triggers == old(self).prompt_triggers
                &&& final(self).next_id == old(self).next_id
            },
    {
        if self.next_id == u32::MAX {
            return Err(ScriptError::IdsExhausted);
        }
        match Pattern::new(pattern) {
            None => Err(ScriptError::InvalidPattern),
            Some(p) => {
                let id = self.next_id;
                let rule = Rule { id, pattern: p, enabled: true, gag, callback };
                let ghost added = rule@;
                if prompt {
                    self.prompt_triggers.push(rule);
                    assert(self.prompt_triggers_view() =~= old(self).prompt_triggers_view().push(added));
                } else {
                    self.triggers.push(rule);
                    assert(self.triggers_view() =~= old(self).triggers_view().push(added));
                }
                self.next_id = id + 1;
                Ok(id)
            },
        }
    }

    /// Removes the trigger with the given id from whichever table holds it;
    /// says whether there was one.
    #[verifier::rlimit(40)]
    pub fn remove_trigger(&mut self, id: u32) -> (r: bool)
        requires
            old(self).wf(),
        ensures
            final(self).wf(),
            final(self).same_rest(old(self)),
            final(self).aliases == old(self).aliases,
            final(self).next_id == old(self).next_id,
            r == (has_id(old(self).triggers_view(), id) || has_id(old(self).prompt_triggers_view(), id)),
            final(self).triggers_view() == without_id(old(self).triggers_view(), id),
            final(self).prompt_triggers_view() == without_id(old(self).prompt_triggers_view(), id),
    {
        proof {
            lemma_without_ordered(old(self).triggers_view(), id, self.next_id);
            lemma_without_ordered(old(self).prompt_triggers_view(), id, self.next_id);
        }
        if remove_rule(&mut self.triggers, id) {
            proof {
                let pv = old(self).prompt_triggers_view();
                assert(!has_id(pv, id)) by {
                    if has_id(pv, id) {
                        let j = choose|j: int| 0 <= j < pv.len() && (#[trigger] pv[j]).id == id;
                        let i = choose|i: int| 0 <= i < old(self).triggers_view().len()
                            && (#[trigger] old(self).triggers_view()[i]).id == id;
                        assert(old(self).triggers_view()[i].id != pv[j].id);
                    }
                }
                lemma_without_absent(pv, id);
                self.lemma_disjoint_kept(old(self), id);
            }
            true
        } else {
            let r = remove_rule(&mut self.prompt_triggers, id);
            proof {
                lemma_without_absent(old(self).triggers_view(), id);
                self.lemma_disjoint_kept(old(self), id);
            }
            r
        }
    }

    proof fn lemma_disjoint_kept(&self, o: &LuaScript, id: u32)
        requires
            ids_disjoint(o.triggers_view(), o.prompt_triggers_view()),
            self.triggers_view() == without_id(o.triggers_view(), id),
            self.prompt_triggers_view() == without_id(o.prompt_triggers_view(), id),
            forall|k: int| 0 <= k < without_id(o.triggers_view(), id).len() ==> exists|j: int|
                0 <= j < o.triggers_view().len() && #[trigger] without_id(o.triggers_view(), id)[k] == o.triggers_view()[j],
            forall|k: int| 0 <= k < without_id(o.prompt_triggers_view(), id).len() ==> exists|j: int|
                0 <= j < o.prompt_triggers_view().len() && #[trigger] without_id(o.prompt_triggers_view(), id)[k] == o.prompt_triggers_view()[j],
        ensures
            ids_disjoint(self.triggers_view(), self.prompt_triggers_view()),
    {
        let a = self.triggers_view();
        let b = self.prompt_triggers_view();
        assert forall|i: int, j: int| 0 <= i < a.len() && 0 <= j < b.len() implies (#[trigger] a[i]).id != (#[trigger] b[j]).id by {
            let x = choose|x: int| 0 <= x < o.triggers_view().len() && #[trigger] a[i] == o.triggers_view()[x];
            let y = choose|y: int| 0 <= y < o.prompt_triggers_view().len() && #[trigger] b[j] == o.prompt_triggers_view()[y];
            assert(o.triggers_view()[x].id != o.prompt_triggers_view()[y].id);
        }
    }

    /// Runs the aliases over a line of user input: unless the line bypasses
    /// scripts, a call is queued for each enabled alias whose pattern matches
    /// the clean line, in table order; says whether any matched.
    pub fn check_for_alias_match(&mut self, input: &Line) -> (r: bool)
        requires
            old(self).wf(),
        ensures
            final(self).same_but_calls(old(self)),
            final(self).wf(),
            final(self).aliases == old(self).aliases,
            final(self).triggers == old(self).triggers,
            final(self).prompt_triggers == old(self).prompt_triggers,
            final(self).next_id == old(self).next_id,
            input@.flags.bypass_script ==> !r && final(self).calls == old(self).calls,
            !input@.flags.bypass_script ==> {
                &&& r == any_hit(old(self).aliases_view(), input@.clean)
                &&& final(self).calls_view() == old(self).calls_view()
                    + rule_calls(old(self).aliases_view(), input@.clean)
            },
    {
        if input.flags.bypass_script {
            false
        } else {
            let (matched, _) = run_rules(&self.aliases, input.clean_line(), &mut self.calls);
            matched
        }
    }

    /// Runs the triggers over a received line.
    pub fn check_for_trigger_match(&mut self, line: &mut Line)
        requires
            old(self).wf(),
        ensures
            final(self).same_but_calls(old(self)),
            final(self).wf(),
            final(self).aliases == old(self).aliases,
            final(self).triggers == old(self).triggers,
            final(self).prompt_triggers == old(self).prompt_triggers,
            final(self).next_id == old(self).next_id,
            final(self).calls_view() == old(self).calls_view()
                + rule_calls(old(self).triggers_view(), old(line)@.clean),
            final(line)@ == triggered(old(line)@, old(self).triggers_view()),
    {
        let (matched, gag) = run_rules(&self.triggers, line.clean_line(), &mut self.calls);
        if matched {
            line.flags.matched = true;
        }
        if gag {
            line.flags.gag = true;
        }
    }

    /// Runs the prompt triggers over a prompt line.
    pub fn check_for_prompt_trigger_match(&mut self, line: &mut Line)
        requires
            old(self).wf(),
        ensures
            final(self).same_but_calls(old(self)),
            final(self).wf(),
            final(self).aliases == old(self).aliases,
            final(self).triggers == old(self).triggers,
            final(self).prompt_triggers == old(self).prompt_triggers,
            final(self).next_id == old(self).next_id,
            final(self).calls_view() == old(self).calls_view()
                + rule_calls(old(self).prompt_triggers_view(), old(line)@.clean),
            final(line)@ == triggered(old(line)@, old(self).prompt_triggers_view()),
    {
        let (matched, gag) = run_rules(&self.prompt_triggers, line.clean_line(), &mut self.calls);
        if matched {
            line.flags.matched = true;
        }
        if gag {
            line.flags.gag = true;
        }
    }

    /// The line to send to the server for a line of user input: none when an
    /// alias took it.
    pub fn outgoing(&mut self, input: Line) -> (r: Option<Line>)
        requires
            old(self).wf(),
        ensures
            final(self).same_but_calls(old(self)),
            final(self).wf(),
            final(self).aliases == old(self).aliases,
            (r is None) == (!input@.flags.bypass_script && any_hit(old(self).aliases_view(), input@.clean)),
            r matches Some(l) ==> l == input,
            input@.flags.bypass_script ==> final(self).calls == old(self).calls,
            !input@.flags.bypass_script ==> final(self).calls_view() == old(self).calls_view()
                + rule_calls(old(self).aliases_view(), input@.clean),
    {
        if self.check_for_alias_match(&input) {
            None
        } else {
            Some(input)
        }
    }
}

/// The line after trigger dispatch over `rules`: matched once any rule hits,
/// gagged once a gagging rule hits, otherwise as it was.
pub open spec fn triggered(line: LineView, rules: Seq<RuleView>) -> LineView {
    LineView {
        flags: LineFlags {
            matched: line.flags.matched || any_hit(rules, line.clean),
            gag: line.flags.gag || any_gag_hit(rules, line.clean),
            ..line.flags
        },
        ..line
    }
}

/// A trigger that does not gag and whose pattern does not match the line
/// leaves the line's flags as they were.
pub proof fn lemma_unmatched_trigger_keeps_line(line: LineView, rule: RuleView)
    requires
        !rule.gag,
        !is_match(rule.pattern, line.clean),
    ensures
        triggered(line, seq![rule]) == line,
{
    assert(!any_hit(seq![rule], line.clean));
    assert(!any_gag_hit(seq![rule], line.clean));
}

/// The message type of a GMCP payload: the text up to the first space.
pub open spec fn gmcp_type(data: Seq<char>) -> Seq<char> {
    data.subrange(0, next_space(data, 0))
}

/// The body of a GMCP payload: the text after the first space, or nothing.
pub open spec fn gmcp_body(data: Seq<char>) -> Seq<char> {
    let k = next_space(data, 0);
    if k < data.len() {
        data.subrange(k + 1, data.len() as int)
    } else {
        Seq::empty()
    }
}

proof fn lemma_next_space_at(s: Seq<char>, i: int, k: int)
    requires
        0 <= i <= k <= s.len(),
        forall|j: int| i <= j < k ==> s[j] != ' ',
        k == s.len() || s[k] == ' ',
    ensures
        next_space(s, i) == k,
    decreases k - i,
{
    if i < k {
        lemma_next_space_at(s, i + 1, k);
    }
}

/// A payload made of a type without spaces, a space and a body splits into
/// that type and that body; a payload without a space is all type, with an
/// empty body.
pub proof fn lemma_gmcp_split(t: Seq<char>, b: Seq<char>)
    requires
        forall|j: int| 0 <= j < t.len() ==> t[j] != ' ',
    ensures
        gmcp_type(t + seq![' '] + b) == t,
        gmcp_body(t + seq![' '] + b) == b,
        gmcp_type(t) == t,
        gmcp_body(t) == Seq::<char>::empty(),
{
    let s = t + seq![' '] + b;
    lemma_next_space_at(s, 0, t.len() as int);
    lemma_next_space_at(t, 0, t.len() as int);
    assert(s.subrange(0, t.len() as int) =~= t);
    assert(s.subrange(t.len() + 1int, s.len() as int) =~= b);
    assert(t.subrange(0, t.len() as int) =~= t);
}

/// Splits a GMCP payload into its message type and its body.
pub fn split_gmcp(data: &str) -> (r: (String, String))
    ensures
        r.0@ == gmcp_type(data@),
        r.1@ == gmcp_body(data@),
{
    let mut head = chars_of(data);
    let n = head.len();
    let mut k: usize = 0;
    while k < n && head[k] != ' '
        invariant
            n == head@.len(),
            head@ == data@,
            k <= n,
            next_space(data@, 0) == next_space(data@, k as int),
        decreases n - k,
    {
        k = k + 1;
    }
    let mut tail = head.split_off(k);
    if tail.len() > 0 {
        tail.remove(0);
    }
    assert(tail@ =~= gmcp_body(data@));
    (string_of(head.as_slice()), string_of(tail.as_slice()))
}

impl LuaScript {
    /// Registers `callback` for GMCP messages of the given type, in place of
    /// any earlier one.
    pub fn add_gmcp_receiver(&mut self, msg_type: &str, callback: u32)
        ensures
            final(self).same_tables(old(self)),
            handlers_view(final(self).gmcp_listeners@)
                == with_handler(handlers_view(old(self).gmcp_listeners@), msg_type@, callback),
            final(self).bindings == old(self).bindings,
            final(self).calls == old(self).calls,
    {
        set_handler(&mut self.gmcp_listeners, msg_type, callback);
    }

    /// Dispatches a GMCP payload: the listener for its type, if there is one,
    /// is queued with the body.
    pub fn receive_gmcp(&mut self, data: &str)
        ensures
            final(self).same_but_calls(old(self)),
            final(self).same_tables(old(self)),
            final(self).gmcp_listeners == old(self).gmcp_listeners,
            final(self).calls_view() == old(self).calls_view() + match handler_for(
                handlers_view(old(self).gmcp_listeners@),
                gmcp_type(data@),
            ) {
                Some(cb) => seq![CallView::Callback(cb, seq![gmcp_body(data@)])],
                None => Seq::empty(),
            },
    {
        let (msg_type, content) = split_gmcp(data);
        match lookup_handler(&self.gmcp_listeners, msg_type.as_str()) {
            Some(cb) => {
                let mut args: Vec<String> = Vec::new();
                args.push(content);
                let call = Call::Callback(cb, args);
                assert(strings_view(args@) =~= seq![content@]);
                self.calls.push(call);
                assert(self.calls_view() =~= old(self).calls_view().push(call@));
            },
            None => {},
        }
    }

    /// Registers `callback` for the key of the given name, in place of any
    /// earlier one.
    pub fn add_binding(&mut self, key: &str, callback: u32)
        ensures
            final(self).same_tables(old(self)),
            handlers_view(final(self).bindings@)
                == with_handler(handlers_view(old(self).bindings@), key@, callback),
            final(self).gmcp_listeners == old(self).gmcp_listeners,
            final(self).calls == old(self).calls,
    {
        set_handler(&mut self.bindings, key, callback);
    }

    /// Queues the binding of the named key, without arguments; says whether
    /// there was one.
    pub fn check_bindings(&mut self, key: &str) -> (r: bool)
        ensures
            final(self).same_but_calls(old(self)),
            final(self).same_tables(old(self)),
            final(self).bindings == old(self).bindings,
            r == handler_for(handlers_view(old(self).bindings@), key@) is Some,
            final(self).calls_view() == old(self).calls_view() + match handler_for(
                handlers_view(old(self).bindings@),
                key@,
            ) {
                Some(cb) => seq![CallView::Callback(cb, Seq::empty())],
                None => Seq::empty(),
            },
    {
        match lookup_handler(&self.bindings, key) {
            Some(cb) => {
                let call = Call::Callback(cb, Vec::new());
                assert(strings_view(Seq::<String>::empty()) =~= Seq::<Seq<char>>::empty());
                self.calls.push(call);
                assert(self.calls_view() =~= old(self).calls_view().push(call@));
                true
            },
            None => false,
        }
    }
}

impl LuaScript {
    /// Registers a function to run after `seconds`, again and again when
    /// `repeat` holds; its id is the next one.
    pub fn add_timer(&mut self, seconds: u32, repeat: bool, callback: u32) -> (r: Result<u32, ScriptError>)
        requires
            old(self).wf(),
        ensures
            final(self).wf(),
            final(self).aliases == old(self).aliases,
            final(self).triggers == old(self).triggers,
            final(self).prompt_triggers == old(self).prompt_triggers,
            final(self).calls == old(self).calls,
            (r is Err) == (old(self).next_id == u32::MAX),
            r is Err ==> final(self).timers == old(self).timers && final(self).next_id == old(self).next_id,
            r matches Ok(id) ==> {
                &&& id == old(self).next_id
                &&& final(self).next_id == id + 1
                &&& final(self).timers@ == old(self).timers@.push(TimedFunction { id, callback, seconds, repeat })
            },
            r matches Err(e) ==> e == ScriptError::IdsExhausted,
    {
        if self.next_id == u32::MAX {
            return Err(ScriptError::IdsExhausted);
        }
        let id = self.next_id;
        self.timers.push(TimedFunction { id, callback, seconds, repeat });
        self.next_id = id + 1;
        Ok(id)
    }

    /// Cancels the timer with the given id; says whether there was one.
    pub fn remove_timed_function(&mut self, id: u32) -> (r: bool)
        requires
            old(self).wf(),
        ensures
            final(self).wf(),
            final(self).aliases == old(self).aliases,
            final(self).triggers == old(self).triggers,
            final(self).prompt_triggers == old(self).prompt_triggers,
            final(self).next_id == old(self).next_id,
            final(self).calls == old(self).calls,
            r == (timer_index(old(self).timers@, id) >= 0),
            final(self).timers@ == timers_without(old(self).timers@, id),
    {
        match find_timer(&self.timers, id) {
            Some(i) => {
                self.timers.remove(i);
                proof { self.lemma_timers_kept(old(self), i as int); }
                true
            },
            None => false,
        }
    }

    proof fn lemma_timers_kept(&self, o: &LuaScript, i: int)
        requires
            timers_ordered(o.timers@, o.next_id),
            0 <= i < o.timers@.len(),
            self.timers@ == o.timers@.remove(i),
            self.next_id == o.next_id,
        ensures
            timers_ordered(self.timers@, self.next_id),
    {
        let t = self.timers@;
        assert forall|a: int, b: int| 0 <= a < b < t.len() implies (#[trigger] t[a]).id < (#[trigger] t[b]).id by {
            let x = if a < i { a } else { a + 1 };
            let y = if b < i { b } else { b + 1 };
            assert(t[a] == o.timers@[x] && t[b] == o.timers@[y]);
        }
        assert forall|a: int| 0 <= a < t.len() implies (#[trigger] t[a]).id < self.next_id by {
            let x = if a < i { a } else { a + 1 };
            assert(t[a] == o.timers@[x]);
        }
    }

    /// Fires the timer with the given id: its function is queued, and a timer
    /// that does not repeat is dropped. Gives the delay after which a
    /// repeating timer fires again.
    pub fn run_timed_function(&mut self, id: u32) -> (r: Option<u32>)
        requires
            old(self).wf(),
        ensures
            final(self).wf(),
            final(self).aliases == old(self).aliases,
            final(self).triggers == old(self).triggers,
            final(self).prompt_triggers == old(self).prompt_triggers,
            final(self).next_id == old(self).next_id,
            timer_index(old(self).timers@, id) < 0 ==> r is None && final(self).timers == old(self).timers
                && final(self).calls == old(self).calls,
            timer_index(old(self).timers@, id) >= 0 ==> {
                let t = old(self).timers@[timer_index(old(self).timers@, id)];
                &&& final(self).calls_view() == old(self).calls_view().push(CallView::Callback(t.callback, Seq::empty()))
                &&& t.repeat ==> r == Some(t.seconds) && final(self).timers == old(self).timers
                &&& !t.repeat ==> r is None && final(self).timers@ == timers_without(old(self).timers@, id)
            },
    {
        match find_timer(&self.timers, id) {
            Some(i) => {
                let t = self.timers[i];
                let call = Call::Callback(t.callback, Vec::new());
                assert(strings_view(Seq::<String>::empty()) =~= Seq::<Seq<char>>::empty());
                self.calls.push(call);
                assert(self.calls_view() =~= old(self).calls_view().push(call@));
                if t.repeat {
                    Some(t.seconds)
                } else {
                    self.timers.remove(i);
                    proof { self.lemma_timers_kept(old(self), i as int); }
                    None
                }
            },
            None => None,
        }
    }

    /// Queues the script's connection hook, the first time after a reset or a
    /// disconnection.
    pub fn on_connect(&mut self, host: &str, port: u16)
        ensures
            final(self).on_connect_triggered,
            old(self).on_connect_triggered ==> final(self).calls == old(self).calls,
            !old(self).on_connect_triggered ==> final(self).calls_view()
                == old(self).calls_view().push(CallView::OnConnect(host@, port)),
            final(self).aliases == old(self).aliases,
            final(self).triggers == old(self).triggers,
            final(self).prompt_triggers == old(self).prompt_triggers,
            final(self).timers == old(self).timers,
            final(self).next_id == old(self).next_id,
    {
        if !self.on_connect_triggered {
            self.on_connect_triggered = true;
            let call = Call::OnConnect(host.to_owned(), port);
            self.calls.push(call);
            assert(self.calls_view() =~= old(self).calls_view().push(call@));
        }
    }

    /// Re-arms the connection hook once the session is disconnected.
    pub fn on_disconnect(&mut self)
        ensures
            !final(self).on_connect_triggered,
            final(self).calls == old(self).calls,
            final(self).aliases == old(self).aliases,
            final(self).triggers == old(self).triggers,
            final(self).prompt_triggers == old(self).prompt_triggers,
            final(self).timers == old(self).timers,
            final(self).next_id == old(self).next_id,
    {
        self.on_connect_triggered = false;
    }

    /// Queues the script's hook for when the server agreed to GMCP.
    pub fn on_gmcp_ready(&mut self)
        ensures
            final(self).calls_view() == old(self).calls_view().push(CallView::OnGmcpReady),
            final(self).aliases == old(self).aliases,
            final(self).triggers == old(self).triggers,
            final(self).prompt_triggers == old(self).prompt_triggers,
            final(self).timers == old(self).timers,
            final(self).next_id == old(self).next_id,
    {
        self.calls.push(Call::OnGmcpReady);
        assert(self.calls_view() =~= old(self).calls_view().push(CallView::OnGmcpReady));
    }

    pub fn set_dimensions(&mut self, dim: (u16, u16))
        ensures
            final(self).same_tables(old(self)),
            final(self).dimensions == dim,
            final(self).calls == old(self).calls,
            final(self).events == old(self).events,
    {
        self.dimensions = dim;
    }

    pub fn terminal_dimensions(&self) -> (r: (u16, u16))
        ensures
            r == self.dimensions,
    {
        self.dimensions
    }

    /// Queues a GMCP message for the server.
    pub fn send_gmcp(&mut self, msg: &str)
        ensures
            final(self).same_tables(old(self)),
            final(self).events@.len() == old(self).events@.len() + 1,
            final(self).events@.drop_last() == old(self).events@,
            final(self).events@.last()@ == EventView::GMCPSend(msg@),
            final(self).calls == old(self).calls,
    {
        self.events.push(Event::GMCPSend(msg.to_owned()));
        assert(self.events@.drop_last() =~= old(self).events@);
    }

    /// Queues a line for the server, past the aliases.
    pub fn send(&mut self, msg: &str)
        ensures
            final(self).same_tables(old(self)),
            final(self).events@.len() == old(self).events@.len() + 1,
            final(self).events@.drop_last() == old(self).events@,
            final(self).events@.last()@ == EventView::ServerInput(LineView {
                content: msg@,
                clean: crate::model::strip_styling(msg@),
                flags: LineFlags { bypass_script: true, ..LineFlags::none() },
            }),
            final(self).calls == old(self).calls,
    {
        let mut line = Line::from(msg);
        line.flags.bypass_script = true;
        self.events.push(Event::ServerInput(line));
        assert(self.events@.drop_last() =~= old(self).events@);
    }

    /// Queues a line for the screen.
    pub fn output(&mut self, msg: &str)
        ensures
            final(self).same_tables(old(self)),
            final(self).output_lines@.len() == old(self).output_lines@.len() + 1,
            final(self).output_lines@.drop_last() == old(self).output_lines@,
            final(self).output_lines@.last()@.content == msg@,
            final(self).output_lines@.last()@.flags == LineFlags::none(),
            final(self).calls == old(self).calls,
            final(self).events == old(self).events,
    {
        self.output_lines.push(Line::from(msg));
        assert(self.output_lines@.drop_last() =~= old(self).output_lines@);
    }

    /// Hands out the lines queued for the screen, oldest first.
    pub fn get_output_lines(&mut self) -> (r: Vec<Line>)
        ensures
            final(self).same_tables(old(self)),
            r@ == old(self).output_lines@,
            final(self).output_lines@.len() == 0,
            final(self).calls == old(self).calls,
            final(self).events == old(self).events,
    {
        self.output_lines.split_off(0)
    }

    /// Hands out the queued calls, oldest first.
    pub fn take_calls(&mut self) -> (r: Vec<Call>)
        ensures
            r@ == old(self).calls@,
            final(self).calls@.len() == 0,
            final(self).events == old(self).events,
            final(self).aliases == old(self).aliases,
            final(self).triggers == old(self).triggers,
            final(self).prompt_triggers == old(self).prompt_triggers,
            final(self).timers == old(self).timers,
            final(self).next_id == old(self).next_id,
    {
        self.calls.split_off(0)
    }

    /// Hands out the queued events, oldest first.
    pub fn take_events(&mut self) -> (r: Vec<Event>)
        ensures
            r@ == old(self).events@,
            final(self).events@.len() == 0,
            final(self).calls == old(self).calls,
            final(self).aliases == old(self).aliases,
            final(self).triggers == old(self).triggers,
            final(self).prompt_triggers == old(self).prompt_triggers,
            final(self).timers == old(self).timers,
            final(self).next_id == old(self).next_id,
    {
        self.events.split_off(0)
    }

    /// Queues a request of a script for the editor or the view.
    pub fn push_ui_event(&mut self, ev: UiEvent)
        ensures
            final(self).ui_events@ == old(self).ui_events@.push(ev),
            final(self).same_tables(old(self)),
            final(self).calls == old(self).calls,
            final(self).events == old(self).events,
    {
        self.ui_events.push(ev);
    }

    /// Hands out the queued requests for the editor, oldest first.
    pub fn take_ui_events(&mut self) -> (r: Vec<UiEvent>)
        ensures
            r@ == old(self).ui_events@,
            final(self).ui_events@.len() == 0,
            final(self).same_tables(old(self)),
            final(self).calls == old(self).calls,
            final(self).events == old(self).events,
    {
        self.ui_events.split_off(0)
    }
}

} // verus!
