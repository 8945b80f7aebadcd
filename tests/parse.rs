use blightmud::model::{Connection, Event, Line};
use blightmud::parse::{parse_command, port_of};

#[test]
fn connect_commands() {
    assert_eq!(parse_command("/connect"), Event::Info("USAGE: /connect <host> <port>".to_string()));
    assert_eq!(parse_command("/connect Mud"), Event::LoadServer("mud".to_string()));
    assert_eq!(
        parse_command("/connect example.org 4000"),
        Event::Connect(Connection::new("example.org", 4000, false))
    );
    assert_eq!(
        parse_command("/connect example.org 4000 TLS"),
        Event::Connect(Connection::new("example.org", 4000, true))
    );
    assert_eq!(
        parse_command("/connect example.org port"),
        Event::Error("USAGE: /connect <host: String> <port: Positive number>".to_string())
    );
    assert_eq!(
        parse_command("/connect example.org 70000"),
        Event::Error("USAGE: /connect <host: String> <port: Positive number>".to_string())
    );
}

#[test]
fn server_commands() {
    let usage = "USAGE: /add_server <name: String> <host: String> <port: Positive number>".to_string();
    assert_eq!(parse_command("/add_server a b"), Event::Info(usage.clone()));
    assert_eq!(parse_command("/add_server a b c"), Event::Error(usage));
    assert_eq!(
        parse_command("/add_server home example.org 23 tls"),
        Event::AddServer("home".to_string(), Connection::new("example.org", 23, true))
    );
    assert_eq!(parse_command("/remove_server home"), Event::RemoveServer("home".to_string()));
    assert_eq!(
        parse_command("/remove_server"),
        Event::Info("USAGE: /remove_server <name: String>".to_string())
    );
    assert_eq!(parse_command("/ls"), Event::ListServers);
    assert_eq!(parse_command("/list_servers"), Event::ListServers);
}

#[test]
fn simple_commands() {
    assert_eq!(parse_command("/dc"), Event::Disconnect(0));
    assert_eq!(parse_command("/disconnect"), Event::Disconnect(0));
    assert_eq!(parse_command("/rc"), Event::Reconnect);
    assert_eq!(parse_command("/QUIT"), Event::Quit);
    assert_eq!(parse_command("  /q  "), Event::Quit);
    assert_eq!(parse_command("/stop_log"), Event::StopLogging);
    assert_eq!(parse_command("/settings"), Event::ShowSettings);
    assert_eq!(parse_command("/help"), Event::ShowHelp("help".to_string()));
    assert_eq!(parse_command("/help scripting"), Event::ShowHelp("scripting".to_string()));
    assert_eq!(parse_command("/load"), Event::Info("USAGE: /load <path>".to_string()));
    assert_eq!(parse_command("/load a.lua"), Event::LoadScript("a.lua".to_string()));
    assert_eq!(parse_command("/start_log"), Event::Info("USAGE: /start_log <name>".to_string()));
    assert_eq!(parse_command("/start_log w"), Event::StartLogging("w".to_string(), true));
}

#[test]
fn set_commands() {
    assert_eq!(
        parse_command("/set"),
        Event::Info("USAGE: /set <setting> or /set <setting> <new_value>".to_string())
    );
    assert_eq!(parse_command("/set mouse"), Event::ShowSetting("mouse".to_string()));
    assert_eq!(
        parse_command("/set mouse on"),
        Event::ToggleSetting("mouse".to_string(), "on".to_string())
    );
}

#[test]
fn other_input_goes_to_server() {
    assert_eq!(parse_command("Say Hello"), Event::ServerInput(Line::from("Say Hello")));
    assert_eq!(parse_command("/unknown x"), Event::ServerInput(Line::from("/unknown x")));
    assert_eq!(parse_command(""), Event::ServerInput(Line::from("")));
}

#[test]
fn port_numbers() {
    assert_eq!(port_of("4000"), Some(4000));
    assert_eq!(port_of("+23"), Some(23));
    assert_eq!(port_of("65535"), Some(65535));
    assert_eq!(port_of("65536"), None);
    assert_eq!(port_of(""), None);
    assert_eq!(port_of("+"), None);
    assert_eq!(port_of("-1"), None);
    assert_eq!(port_of("12a"), None);
}

#[test]
fn styling_is_stripped() {
    let line = Line::from("\u{1b}[1;32mgreen\u{1b}[0m text");
    assert_eq!(line.clean_line(), "green text");
    assert_eq!(line.content, "\u{1b}[1;32mgreen\u{1b}[0m text");
}
