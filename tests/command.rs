use blightmud::command::{ui_event_from_name, CommandBuffer, UiEvent};
use blightmud::model::Event;
use blightmud::keys::human_key;

fn push_string(buffer: &mut CommandBuffer, msg: &str) {
    msg.chars().for_each(|c| buffer.push_key(c));
}

fn get_command() -> CommandBuffer {
    CommandBuffer::new()
}

#[test]
fn test_editing() {
    let mut buffer = get_command();

    push_string(&mut buffer, "test is test");
    assert_eq!(buffer.get_buffer(), "test is test");
    assert_eq!(buffer.get_pos(), 12);
    buffer.move_left();
    buffer.move_left();
    buffer.move_left();
    buffer.move_left();
    buffer.remove();
    buffer.remove();
    buffer.remove();
    buffer.remove();
    assert_eq!(buffer.get_buffer(), "testtest");
    assert_eq!(buffer.get_pos(), 4);
    push_string(&mut buffer, " confirm ");
    assert_eq!(buffer.get_buffer(), "test confirm test");
    assert_eq!(buffer.get_pos(), 13);
}

#[test]
fn test_no_zero_index_remove_crash() {
    let mut buffer = get_command();
    buffer.push_key('t');
    buffer.move_left();
    assert_eq!(buffer.get_pos(), 0);
    buffer.remove();
    assert_eq!(buffer.get_pos(), 0);
}

#[test]
fn test_no_history_empty_input() {
    let mut buffer = get_command();
    buffer.submit();
    assert!(buffer.history.is_empty());
}

#[test]
fn no_duplicate_commands_in_history() {
    let mut buffer = get_command();
    push_string(&mut buffer, "test");
    buffer.submit();
    push_string(&mut buffer, "test");
    buffer.submit();
    push_string(&mut buffer, "test");
    buffer.submit();
    push_string(&mut buffer, "test");
    buffer.submit();
    push_string(&mut buffer, "random");
    buffer.submit();
    push_string(&mut buffer, "random");
    buffer.submit();
    push_string(&mut buffer, "random");
    buffer.submit();
    push_string(&mut buffer, "test");
    buffer.submit();
    push_string(&mut buffer, "random");
    buffer.submit();

    assert_eq!(buffer.history.len(), 4);
    let mut it = buffer.history.iter();
    assert_eq!(it.next(), Some(&"test".to_string()));
    assert_eq!(it.next(), Some(&"random".to_string()));
    assert_eq!(it.next(), Some(&"test".to_string()));
    assert_eq!(it.next(), Some(&"random".to_string()));
}

#[test]
fn test_input_navigation() {
    let mut buffer = get_command();
    push_string(&mut buffer, "some random words");
    buffer.move_word_left();
    assert_eq!(buffer.cursor_pos, 12);
    buffer.move_word_left();
    assert_eq!(buffer.cursor_pos, 5);
    buffer.move_word_left();
    assert_eq!(buffer.cursor_pos, 0);
    buffer.move_word_left();
    assert_eq!(buffer.cursor_pos, 0);
    buffer.move_word_right();
    assert_eq!(buffer.cursor_pos, 4);
    buffer.move_word_right();
    assert_eq!(buffer.cursor_pos, 11);
    buffer.move_word_right();
    assert_eq!(buffer.cursor_pos, 17);
    buffer.move_word_right();
    assert_eq!(buffer.cursor_pos, 17);
}

#[test]
fn test_end_start_navigation() {
    let mut buffer = get_command();
    push_string(&mut buffer, "some random words");
    buffer.move_to_start();
    assert_eq!(buffer.cursor_pos, 0);
    buffer.move_to_start();
    assert_eq!(buffer.cursor_pos, 0);
    buffer.move_to_end();
    assert_eq!(buffer.cursor_pos, 17);
    buffer.move_to_end();
    assert_eq!(buffer.cursor_pos, 17);
}

#[test]
fn test_delete_rest_of_line() {
    let mut buffer = get_command();
    push_string(&mut buffer, "some random words");
    buffer.move_to_start();
    buffer.move_word_right();
    buffer.delete_from_start();
    assert_eq!(buffer.get_buffer(), " random words");
}

#[test]
fn test_delete_from_start_of_line() {
    let mut buffer = get_command();
    push_string(&mut buffer, "some random words");
    buffer.move_to_start();
    buffer.move_word_right();
    buffer.move_word_right();
    buffer.delete_to_end();
    assert_eq!(buffer.get_buffer(), "some random");
}

#[test]
fn test_delete_right() {
    let mut buffer = get_command();
    push_string(&mut buffer, "some random words");
    buffer.move_to_start();
    buffer.move_word_right();
    buffer.delete_right();
    assert_eq!(buffer.get_buffer(), "somerandom words");
    buffer.delete_right();
    assert_eq!(buffer.get_buffer(), "someandom words");
    buffer.move_to_end();
    buffer.delete_right();
    assert_eq!(buffer.get_buffer(), "someandom words");
}

#[test]
fn test_delete_word_left() {
    let mut buffer = get_command();
    push_string(&mut buffer, "some random words");
    buffer.move_to_end();
    buffer.delete_word_left();
    assert_eq!(buffer.get_buffer(), "some random ");
    buffer.move_to_start();
    buffer.move_word_right();
    buffer.delete_word_left();
    assert_eq!(buffer.get_buffer(), " random ");
}

#[test]
fn test_delete_word_right() {
    let mut buffer = get_command();
    push_string(&mut buffer, "some random words");
    buffer.move_to_start();
    buffer.delete_word_right();
    assert_eq!(buffer.get_buffer(), " random words");
    buffer.delete_word_right();
    assert_eq!(buffer.get_buffer(), " words");
}

#[test]
fn test_fancy_chars() {
    let mut buffer = get_command();
    let input = "some weird chars: ÅÖÄø æĸœ→ €ßðßª“";
    push_string(&mut buffer, input);
    assert_eq!(input.chars().count(), buffer.buffer.len());
    assert_ne!(input.len(), buffer.buffer.len());
    assert_eq!(buffer.get_buffer().len(), input.len());
}

#[test]
fn test_human_key() {
    assert_eq!(human_key("alt-", '\u{7f}'), "alt-backspace");
    assert_eq!(human_key("ctrl-", '\u{7f}'), "ctrl-backspace");
    assert_eq!(human_key("alt-", '\u{1b}'), "alt-escape");
    assert_eq!(human_key("ctrl-", '\u{1b}'), "ctrl-escape");
    assert_eq!(human_key("ctrl-", 'd'), "ctrl-d");
    assert_eq!(human_key("f", 'x'), "fx");
}

#[test]
fn history_navigation_restores_draft() {
    let mut buffer = get_command();
    push_string(&mut buffer, "look");
    buffer.submit();
    push_string(&mut buffer, "dra");
    buffer.move_left();
    buffer.previous();
    assert_eq!(buffer.get_buffer(), "look");
    assert_eq!(buffer.get_pos(), 4);
    buffer.next();
    assert_eq!(buffer.get_buffer(), "dra");
    assert_eq!(buffer.get_pos(), 3);
}

#[test]
fn history_navigation_saturates() {
    let mut buffer = get_command();
    push_string(&mut buffer, "first");
    buffer.submit();
    push_string(&mut buffer, "second");
    buffer.submit();
    buffer.previous();
    buffer.previous();
    buffer.previous();
    assert_eq!(buffer.get_buffer(), "first");
    buffer.next();
    assert_eq!(buffer.get_buffer(), "second");
    buffer.next();
    buffer.next();
    assert_eq!(buffer.get_buffer(), "");
    assert_eq!(buffer.current_index, 2);
}

#[test]
fn history_is_capped() {
    let mut buffer = get_command();
    for i in 0..105 {
        push_string(&mut buffer, &format!("cmd{}", i));
        buffer.submit();
    }
    assert_eq!(buffer.history.len(), 100);
    assert_eq!(buffer.history[0], "cmd5");
    assert_eq!(buffer.history[99], "cmd104");
}

#[test]
fn submit_returns_command_and_clears() {
    let mut buffer = get_command();
    push_string(&mut buffer, "say hi");
    assert_eq!(buffer.submit(), "say hi");
    assert_eq!(buffer.get_buffer(), "");
    assert_eq!(buffer.get_pos(), 0);
}

#[test]
fn tab_completion_cycles_back_to_base() {
    let mut buffer = get_command();
    push_string(&mut buffer, "batman batmobile");
    buffer.submit();
    push_string(&mut buffer, "bat");
    buffer.tab_complete();
    assert_eq!(buffer.get_buffer(), "batman");
    assert_eq!(buffer.get_pos(), 6);
    buffer.tab_complete();
    assert_eq!(buffer.get_buffer(), "batmobile");
    buffer.tab_complete();
    assert_eq!(buffer.get_buffer(), "bat");
    buffer.tab_complete();
    assert_eq!(buffer.get_buffer(), "batman");
}

#[test]
fn complete_with_given_options() {
    let mut buffer = get_command();
    push_string(&mut buffer, "ab");
    buffer.complete_with(Some(vec!["abc".to_string(), "abd".to_string()]));
    assert_eq!(buffer.get_buffer(), "abc");
    buffer.complete_with(None);
    assert_eq!(buffer.get_buffer(), "abd");
    buffer.complete_with(None);
    assert_eq!(buffer.get_buffer(), "ab");
    buffer.push_key('x');
    assert!(buffer.completion.is_empty());
}

#[test]
fn word_deletions_in_middle() {
    let mut buffer = get_command();
    push_string(&mut buffer, "one two three");
    buffer.move_to_start();
    buffer.move_word_right();
    buffer.move_word_right();
    assert_eq!(buffer.get_pos(), 7);
    buffer.delete_word_left();
    assert_eq!(buffer.get_buffer(), "one  three");
    assert_eq!(buffer.get_pos(), 4);
}

#[test]
fn history_ordering_scenario() {
    let mut buffer = get_command();
    for cmd in ["test", "test", "test", "random", "random", "test", "random"] {
        push_string(&mut buffer, cmd);
        buffer.submit();
    }
    assert_eq!(buffer.history, vec!["test", "random", "test", "random"]);
    assert_eq!(buffer.history.len(), 4);
}

#[test]
fn ui_event_names() {
    assert_eq!(ui_event_from_name("step_left"), UiEvent::StepLeft);
    assert_eq!(ui_event_from_name("delete_word_right"), UiEvent::DeleteWordRight);
    assert_eq!(ui_event_from_name("scroll_top"), UiEvent::ScrollTop);
    assert_eq!(ui_event_from_name("complete"), UiEvent::Complete);
    assert_eq!(ui_event_from_name("dance"), UiEvent::Unknown("dance".to_string()));
}

#[test]
fn ui_events_drive_the_editor() {
    let mut buffer = get_command();
    push_string(&mut buffer, "some random words");
    assert_eq!(buffer.apply_ui_event(UiEvent::StepWordLeft), None);
    assert_eq!(buffer.get_pos(), 12);
    buffer.apply_ui_event(UiEvent::DeleteToEnd);
    assert_eq!(buffer.get_buffer(), "some random ");
    assert_eq!(buffer.apply_ui_event(UiEvent::ScrollUp), Some(Event::ScrollUp));
    assert_eq!(buffer.apply_ui_event(UiEvent::Unknown("x".to_string())), None);
    assert_eq!(buffer.get_buffer(), "some random ");
    buffer.apply_ui_event(UiEvent::StepToStart);
    assert_eq!(buffer.get_pos(), 0);
}
