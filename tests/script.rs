use blightmud::model::{Event, Line};
use blightmud::script::{split_gmcp, Call, LuaScript, ScriptError};

fn test_trigger(line: &str, lua: &mut LuaScript) -> bool {
    let mut line = Line::from(line);
    lua.check_for_trigger_match(&mut line);
    line.flags.matched
}

fn test_prompt_trigger(line: &str, lua: &mut LuaScript) -> bool {
    let mut line = Line::from(line);
    lua.check_for_prompt_trigger_match(&mut line);
    line.flags.matched
}

fn get_lua() -> LuaScript {
    LuaScript::new((80, 80))
}

#[test]
fn test_lua_trigger() {
    let mut lua = get_lua();
    lua.add_trigger("^test$", true, false, 1).unwrap();

    assert!(test_trigger("test", &mut lua));
    assert!(!test_trigger("test test", &mut lua));
}

#[test]
fn test_lua_prompt_trigger() {
    let mut lua = get_lua();
    lua.add_trigger("^test$", true, true, 1).unwrap();

    assert!(test_prompt_trigger("test", &mut lua));
    assert!(!test_prompt_trigger("test test", &mut lua));
}

#[test]
fn test_remove_trigger() {
    let mut lua = get_lua();
    let ttrig = lua.add_trigger("^test$", false, false, 1).unwrap();
    let ptrig = lua.add_trigger("^test$", false, true, 2).unwrap();

    assert!(test_trigger("test", &mut lua));
    assert!(test_prompt_trigger("test", &mut lua));

    assert!(lua.remove_trigger(ttrig));

    assert!(test_prompt_trigger("test", &mut lua));
    assert!(!test_trigger("test", &mut lua));

    assert!(lua.remove_trigger(ptrig));

    assert!(!test_trigger("test", &mut lua));
    assert!(!test_prompt_trigger("test", &mut lua));
}

#[test]
fn test_lua_alias() {
    let mut lua = get_lua();
    lua.add_alias("^test$", 1).unwrap();

    assert!(lua.check_for_alias_match(&Line::from("test")));
    assert!(!lua.check_for_alias_match(&Line::from(" test")));
}

#[test]
fn test_lua_remove_alias() {
    let mut lua = get_lua();
    let index = lua.add_alias("^test$", 1).unwrap();

    assert!(lua.check_for_alias_match(&Line::from("test")));

    assert!(lua.remove_alias(index));
    assert!(!lua.check_for_alias_match(&Line::from("test")));
}

#[test]
fn test_dimensions() {
    let mut lua = get_lua();
    assert_eq!(lua.terminal_dimensions(), (80, 80));
    lua.set_dimensions((70, 70));
    assert_eq!(lua.terminal_dimensions(), (70, 70));
}

#[test]
fn test_send_gmcp() {
    let mut lua = get_lua();
    lua.send_gmcp("Core.Hello");
    let events = lua.take_events();
    assert_eq!(events, vec![Event::GMCPSend("Core.Hello".to_string())]);
}

#[test]
fn trigger_gag_and_match_flags() {
    let mut lua = get_lua();
    lua.add_trigger("^test$", true, false, 7).unwrap();
    let mut line = Line::from("test");
    lua.check_for_trigger_match(&mut line);
    assert!(line.flags.matched);
    assert!(line.flags.gag);
    let mut other = Line::from("test test");
    lua.check_for_trigger_match(&mut other);
    assert!(!other.flags.matched);
    assert!(!other.flags.gag);
}

#[test]
fn unmatched_trigger_leaves_flags() {
    let mut lua = get_lua();
    lua.add_trigger("^nothing$", false, false, 7).unwrap();
    let mut line = Line::from("something");
    line.flags.gag = true;
    lua.check_for_trigger_match(&mut line);
    assert!(!line.flags.matched);
    assert!(line.flags.gag);
    assert!(lua.take_calls().is_empty());
}

#[test]
fn prompt_trigger_isolation() {
    let mut lua = get_lua();
    lua.add_trigger("^test$", false, true, 3).unwrap();
    assert!(!test_trigger("test", &mut lua));
    assert!(test_prompt_trigger("test", &mut lua));
}

#[test]
fn removed_trigger_callback_not_called() {
    let mut lua = get_lua();
    let id = lua.add_trigger("^test$", false, false, 9).unwrap();
    lua.remove_trigger(id);
    let mut line = Line::from("test");
    lua.check_for_trigger_match(&mut line);
    assert!(lua.take_calls().is_empty());
    assert!(!lua.remove_trigger(id));
}

#[test]
fn trigger_callbacks_get_captures_in_order() {
    let mut lua = get_lua();
    lua.add_trigger("^(\\w+) says (hi)?(\\w+)?", false, false, 1).unwrap();
    lua.add_trigger("says", false, false, 2).unwrap();
    let mut line = Line::from("Bob says hi");
    lua.check_for_trigger_match(&mut line);
    match &lua.take_calls()[..] {
        [Call::Callback(1, caps), Call::Callback(2, caps2)] => {
            assert_eq!(caps, &vec!["Bob says hi".to_string(), "Bob".to_string(), "hi".to_string(), String::new()]);
            assert_eq!(caps2, &vec!["says".to_string()]);
        }
        other => panic!("unexpected calls {:?}", other),
    }
}

#[test]
fn triggers_match_clean_text() {
    let mut lua = get_lua();
    lua.add_trigger("^red text$", false, false, 1).unwrap();
    assert!(test_trigger("\u{1b}[31mred text\u{1b}[0m", &mut lua));
}

#[test]
fn alias_bypass_never_matches() {
    let mut lua = get_lua();
    lua.add_alias("^test$", 1).unwrap();
    let mut line = Line::from("test");
    line.flags.bypass_script = true;
    assert!(!lua.check_for_alias_match(&line));
    assert!(lua.take_calls().is_empty());
}

#[test]
fn alias_suppresses_server_send() {
    let mut lua = get_lua();
    lua.add_alias("^hi$", 4).unwrap();
    assert!(lua.outgoing(Line::from("hi")).is_none());
    let calls = lua.take_calls();
    assert_eq!(calls.len(), 1);
    assert!(matches!(&calls[0], Call::Callback(4, _)));
    let sent = lua.outgoing(Line::from("hello"));
    assert_eq!(sent, Some(Line::from("hello")));
}

#[test]
fn all_matching_aliases_run() {
    let mut lua = get_lua();
    lua.add_alias("^go", 1).unwrap();
    lua.add_alias("north$", 2).unwrap();
    assert!(lua.check_for_alias_match(&Line::from("go north")));
    assert_eq!(lua.take_calls().len(), 2);
}

#[test]
fn invalid_pattern_is_rejected() {
    let mut lua = get_lua();
    assert_eq!(lua.add_alias("foo(bar", 1), Err(ScriptError::InvalidPattern));
    assert_eq!(lua.add_trigger("(", false, false, 1), Err(ScriptError::InvalidPattern));
    assert!(lua.aliases.is_empty());
}

#[test]
fn ids_are_exhausted_at_the_top() {
    let mut lua = get_lua();
    lua.next_id = u32::MAX;
    assert_eq!(lua.add_alias("^a$", 1), Err(ScriptError::IdsExhausted));
    assert_eq!(lua.add_timer(1, false, 1), Err(ScriptError::IdsExhausted));
}

#[test]
fn ids_rise_across_kinds() {
    let mut lua = get_lua();
    let a = lua.add_alias("^a$", 1).unwrap();
    let t = lua.add_trigger("^a$", false, false, 1).unwrap();
    let p = lua.add_trigger("^a$", false, true, 1).unwrap();
    assert!(a < t && t < p);
}

#[test]
fn gmcp_split_on_first_space() {
    assert_eq!(split_gmcp("Char.Vitals {\"hp\": 1}"), ("Char.Vitals".to_string(), "{\"hp\": 1}".to_string()));
    assert_eq!(split_gmcp("Core.Ping"), ("Core.Ping".to_string(), String::new()));
    assert_eq!(split_gmcp("A B C"), ("A".to_string(), "B C".to_string()));
}

#[test]
fn gmcp_dispatch_to_listener() {
    let mut lua = get_lua();
    lua.add_gmcp_receiver("Room.Info", 5);
    lua.receive_gmcp("Room.Info {\"num\": 1}");
    lua.receive_gmcp("Char.Vitals {}");
    lua.receive_gmcp("Room.Info");
    match &lua.take_calls()[..] {
        [Call::Callback(5, a), Call::Callback(5, b)] => {
            assert_eq!(a, &vec!["{\"num\": 1}".to_string()]);
            assert_eq!(b, &vec![String::new()]);
        }
        other => panic!("unexpected calls {:?}", other),
    }
}

#[test]
fn gmcp_receiver_is_replaced() {
    let mut lua = get_lua();
    lua.add_gmcp_receiver("Room.Info", 5);
    lua.add_gmcp_receiver("Room.Info", 6);
    assert_eq!(lua.gmcp_listeners.len(), 1);
    lua.receive_gmcp("Room.Info x");
    assert!(matches!(&lua.take_calls()[..], [Call::Callback(6, _)]));
}

#[test]
fn bindings_dispatch() {
    let mut lua = get_lua();
    lua.add_binding("ctrl-d", 8);
    assert!(lua.check_bindings("ctrl-d"));
    assert!(!lua.check_bindings("ctrl-e"));
    match &lua.take_calls()[..] {
        [Call::Callback(8, args)] => assert!(args.is_empty()),
        other => panic!("unexpected calls {:?}", other),
    }
}

#[test]
fn timers_fire_and_drop() {
    let mut lua = get_lua();
    let once = lua.add_timer(3, false, 10).unwrap();
    let again = lua.add_timer(5, true, 11).unwrap();
    assert_eq!(lua.run_timed_function(once), None);
    assert_eq!(lua.run_timed_function(once), None);
    assert_eq!(lua.run_timed_function(again), Some(5));
    assert_eq!(lua.take_calls().len(), 2);
    assert!(lua.remove_timed_function(again));
    assert!(!lua.remove_timed_function(again));
    assert!(lua.timers.is_empty());
}

#[test]
fn on_connect_fires_once_until_disconnect() {
    let mut lua = get_lua();
    lua.on_connect("host", 4000);
    lua.on_connect("host", 4000);
    assert_eq!(lua.take_calls().len(), 1);
    lua.on_disconnect();
    lua.on_connect("host", 4000);
    match &lua.take_calls()[..] {
        [Call::OnConnect(h, 4000)] => assert_eq!(h, "host"),
        other => panic!("unexpected calls {:?}", other),
    }
}

#[test]
fn reset_clears_tables() {
    let mut lua = get_lua();
    lua.add_alias("^a$", 1).unwrap();
    lua.add_timer(1, true, 1).unwrap();
    lua.on_connect("h", 1);
    lua.reset((10, 20));
    assert!(lua.aliases.is_empty());
    assert!(lua.timers.is_empty());
    assert!(!lua.on_connect_triggered);
    assert_eq!(lua.terminal_dimensions(), (10, 20));
}

#[test]
fn output_and_send_are_queued() {
    let mut lua = get_lua();
    lua.output("hello");
    lua.send("kill rat");
    let lines = lua.get_output_lines();
    assert_eq!(lines.len(), 1);
    assert_eq!(lines[0].content, "hello");
    match &lua.take_events()[..] {
        [Event::ServerInput(l)] => {
            assert_eq!(l.content, "kill rat");
            assert!(l.flags.bypass_script);
        }
        other => panic!("unexpected events {:?}", other),
    }
}

#[test]
fn gmcp_without_listener_does_nothing() {
    let mut lua = get_lua();
    lua.add_gmcp_receiver("Room", 5);
    lua.receive_gmcp("Room.Info {}");
    assert!(lua.take_calls().is_empty());
    assert!(lua.take_events().is_empty());
}

#[test]
fn ui_events_are_queued() {
    let mut lua = get_lua();
    lua.push_ui_event(blightmud::command::UiEvent::StepLeft);
    assert_eq!(lua.take_ui_events(), vec![blightmud::command::UiEvent::StepLeft]);
    assert!(lua.take_ui_events().is_empty());
}

#[test]
fn due_timers_in_schedule_order() {
    let schedule = vec![(3, 100), (1, 50), (2, 200), (4, 100)];
    assert_eq!(blightmud::script::due_timers(&schedule, 100), vec![3, 1, 4]);
    assert!(blightmud::script::due_timers(&schedule, 10).is_empty());
}
