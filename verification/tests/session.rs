use decoy::command::Outcome;
use decoy::server::Server;
use decoy::service::{RuleConfig, ServiceConfig, Settings};
use decoy::session::{Action, Direction, Event, Mode, Session};

fn rule(parser: &str, handler: &str) -> RuleConfig {
    RuleConfig { parser: parser.to_string(), handler: handler.to_string() }
}

fn server() -> Server {
    let config = ServiceConfig {
        proto: "ssh".to_string(),
        address: "127.0.0.1:2222".to_string(),
        commands: vec![
            rule("^ls( -la)?$", "total 0"),
            rule("^echo (.+)$", "{{$1}} world"),
            rule("^uname(.*)$", "@docker box uname{{$1}}"),
            rule("^broken$", "@docker box"),
            rule("^quiet$", ""),
        ],
        settings: Settings {
            terminator: b'\r',
            fallback: "not found\r\n".to_string(),
            diagnostic: "unavailable\r\n".to_string(),
        },
    };
    Server::new("test".to_string(), &config).unwrap()
}

fn open(server: &mut Server) -> Session {
    let mut session = server.accept("id".to_string(), "peer:1".to_string());
    assert_eq!(server.handle(&mut session, Event::ChannelOpen), vec![]);
    assert_eq!(session.mode(), Mode::Open);
    session
}

fn shell(server: &mut Server) -> Session {
    let mut session = open(server);
    assert_eq!(server.handle(&mut session, Event::ShellRequest), vec![]);
    assert_eq!(session.mode(), Mode::Shell);
    session
}

fn inbound(s: &str) -> Action {
    Action::Record(Direction::Inbound, s.as_bytes().to_vec())
}

fn sent(s: &str) -> Vec<Action> {
    vec![Action::Write(s.as_bytes().to_vec()), Action::Record(Direction::Outbound, s.as_bytes().to_vec())]
}

fn run(target: &str, body: &str) -> Action {
    Action::Execute { target: target.to_string(), body: body.to_string() }
}

fn ok(stdout: &str) -> Event {
    Event::Executed(Outcome::Exited { status: Some(0), stderr: vec![], stdout: stdout.as_bytes().to_vec() })
}

fn failed(status: i32) -> Event {
    Event::Executed(Outcome::Exited { status: Some(status), stderr: b"boom".to_vec(), stdout: vec![] })
}

fn data(s: &str) -> Event {
    Event::Data(s.as_bytes().to_vec())
}

fn all(parts: Vec<Vec<Action>>) -> Vec<Action> {
    parts.into_iter().flatten().collect()
}

#[test]
fn new_session_is_fresh() {
    let session = Session::new("abc".to_string(), "1.2.3.4:5".to_string());
    assert_eq!(session.id(), "abc");
    assert_eq!(session.remote(), "1.2.3.4:5");
    assert_eq!(session.mode(), Mode::Fresh);
    assert!(!session.is_waiting());
}

#[test]
fn exec_request_with_literal_response() {
    let mut server = server();
    let mut session = open(&mut server);
    let actions = server.handle(&mut session, Event::ExecRequest("ls -la".to_string()));
    assert_eq!(actions, all(vec![vec![inbound("ls -la")], sent("total 0"), vec![Action::Done]]));
    assert_eq!(session.mode(), Mode::Closed);
}

#[test]
fn exec_request_with_substitution() {
    let mut server = server();
    let mut session = open(&mut server);
    let actions = server.handle(&mut session, Event::ExecRequest("echo hello".to_string()));
    assert_eq!(actions, all(vec![vec![inbound("echo hello")], sent("hello world"), vec![Action::Done]]));
}

#[test]
fn exec_request_that_no_rule_matches() {
    let mut server = server();
    let mut session = open(&mut server);
    let actions = server.handle(&mut session, Event::ExecRequest("whoami".to_string()));
    assert_eq!(actions, all(vec![vec![inbound("whoami")], sent("not found\r\n"), vec![Action::Done]]));
    assert_eq!(session.mode(), Mode::Closed);
}

#[test]
fn exec_request_with_empty_output_differs_from_no_match() {
    let mut server = server();
    let mut session = open(&mut server);
    let actions = server.handle(&mut session, Event::ExecRequest("quiet".to_string()));
    assert_eq!(actions, all(vec![vec![inbound("quiet")], sent(""), vec![Action::Done]]));
}

#[test]
fn exec_request_with_live_execution() {
    let mut server = server();
    let mut session = open(&mut server);
    let actions = server.handle(&mut session, Event::ExecRequest("uname -a".to_string()));
    assert_eq!(actions, vec![inbound("uname -a"), run("box", "uname -a")]);
    assert_eq!(session.mode(), Mode::Exec);
    assert!(session.is_waiting());
    let actions = server.handle(&mut session, ok("Linux box 6.1\n"));
    assert_eq!(actions, all(vec![sent("Linux box 6.1"), vec![Action::Done]]));
    assert_eq!(session.mode(), Mode::Closed);
    assert!(!session.is_waiting());
    assert_eq!(server.service().rule(2).cached("@docker box uname -a"), Some("Linux box 6.1".to_string()));

    // The next session is served from the cache.
    let mut next = open(&mut server);
    let actions = server.handle(&mut next, Event::ExecRequest("uname -a".to_string()));
    assert_eq!(actions, all(vec![vec![inbound("uname -a")], sent("Linux box 6.1"), vec![Action::Done]]));
}

#[test]
fn exec_request_with_failed_execution() {
    let mut server = server();
    let mut session = open(&mut server);
    server.handle(&mut session, Event::ExecRequest("uname".to_string()));
    let actions = server.handle(&mut session, failed(125));
    assert_eq!(actions, all(vec![sent("unavailable\r\n"), vec![Action::Done]]));
    assert_eq!(session.mode(), Mode::Closed);
    assert_eq!(server.service().rule(2).cached("@docker box uname"), None);
}

#[test]
fn exec_request_with_unreachable_sandbox() {
    let mut server = server();
    let mut session = open(&mut server);
    server.handle(&mut session, Event::ExecRequest("uname".to_string()));
    let actions = server.handle(&mut session, Event::Executed(Outcome::Unreachable));
    assert_eq!(actions, all(vec![sent("unavailable\r\n"), vec![Action::Done]]));
    assert_eq!(server.service().rule(2).cached("@docker box uname"), None);
}

#[test]
fn exec_request_with_malformed_directive() {
    let mut server = server();
    let mut session = open(&mut server);
    let actions = server.handle(&mut session, Event::ExecRequest("broken".to_string()));
    assert_eq!(actions, all(vec![vec![inbound("broken")], sent("unavailable\r\n"), vec![Action::Done]]));
    assert_eq!(session.mode(), Mode::Closed);
}

#[test]
fn requests_are_ignored_before_the_channel_opens() {
    let mut server = server();
    let mut session = server.accept("id".to_string(), "peer:1".to_string());
    assert_eq!(server.handle(&mut session, Event::ExecRequest("ls".to_string())), vec![]);
    assert_eq!(server.handle(&mut session, Event::ShellRequest), vec![]);
    assert_eq!(server.handle(&mut session, Event::PtyRequest), vec![]);
    assert_eq!(server.handle(&mut session, data("ls\r")), vec![]);
    assert_eq!(server.handle(&mut session, ok("x")), vec![]);
    assert_eq!(session.mode(), Mode::Fresh);
}

#[test]
fn interactive_mode_by_pty_or_shell_request() {
    let mut server = server();
    let mut session = open(&mut server);
    assert_eq!(server.handle(&mut session, Event::PtyRequest), vec![]);
    assert_eq!(session.mode(), Mode::Shell);
    assert_eq!(server.handle(&mut session, Event::ShellRequest), vec![]);
    assert_eq!(session.mode(), Mode::Shell);
    assert_eq!(server.handle(&mut session, Event::ChannelOpen), vec![]);
    assert_eq!(session.mode(), Mode::Shell);
    assert_eq!(server.handle(&mut session, Event::ExecRequest("ls".to_string())), vec![]);
    assert_eq!(session.mode(), Mode::Shell);
}

#[test]
fn interactive_lines_are_assembled_across_events() {
    let mut server = server();
    let mut session = shell(&mut server);
    assert_eq!(server.handle(&mut session, data("l")), vec![]);
    assert_eq!(server.handle(&mut session, data("s -")), vec![]);
    let actions = server.handle(&mut session, data("la\rec"));
    assert_eq!(actions, all(vec![vec![inbound("ls -la")], sent("total 0")]));
    let actions = server.handle(&mut session, data("ho hi\r"));
    assert_eq!(actions, all(vec![vec![inbound("echo hi")], sent("hi world")]));
    assert_eq!(session.mode(), Mode::Shell);
}

#[test]
fn interactive_lines_in_one_event_are_served_in_turn() {
    let mut server = server();
    let mut session = shell(&mut server);
    let actions = server.handle(&mut session, data("ls\rwhoami\r\recho a\rtail"));
    assert_eq!(
        actions,
        all(vec![
            vec![inbound("ls")],
            sent("total 0"),
            vec![inbound("whoami")],
            sent("not found\r\n"),
            vec![inbound("")],
            sent("not found\r\n"),
            vec![inbound("echo a")],
            sent("a world"),
        ])
    );
    let actions = server.handle(&mut session, data("\r"));
    assert_eq!(actions, all(vec![vec![inbound("tail")], sent("not found\r\n")]));
}

#[test]
fn interactive_session_waits_for_its_execution() {
    let mut server = server();
    let mut session = shell(&mut server);
    let actions = server.handle(&mut session, data("uname\rls\runame\rec"));
    assert_eq!(actions, vec![inbound("uname"), run("box", "uname")]);
    assert!(session.is_waiting());
    // Nothing is served while the execution is in flight.
    assert_eq!(server.handle(&mut session, data("ho x\r")), vec![]);
    assert!(session.is_waiting());
    // When it comes back, the queue is served; the second uname is answered from the cache.
    let actions = server.handle(&mut session, ok("Linux\n"));
    assert_eq!(
        actions,
        all(vec![
            sent("Linux"),
            vec![inbound("ls")],
            sent("total 0"),
            vec![inbound("uname")],
            sent("Linux"),
            vec![inbound("echo x")],
            sent("x world"),
        ])
    );
    assert!(!session.is_waiting());
    assert_eq!(session.mode(), Mode::Shell);
}

#[test]
fn interactive_session_goes_on_after_a_fault() {
    let mut server = server();
    let mut session = shell(&mut server);
    assert_eq!(server.handle(&mut session, data("uname\runame -a\r")), vec![inbound("uname"), run("box", "uname")]);
    let actions = server.handle(&mut session, failed(1));
    assert_eq!(actions, all(vec![sent("unavailable\r\n"), vec![inbound("uname -a"), run("box", "uname -a")]]));
    assert!(session.is_waiting());
    let actions = server.handle(&mut session, ok("Linux box\n"));
    assert_eq!(actions, sent("Linux box"));
    assert_eq!(server.service().rule(2).cached("@docker box uname"), None);
    assert_eq!(server.service().rule(2).cached("@docker box uname -a"), Some("Linux box".to_string()));
}

#[test]
fn interactive_line_that_is_not_utf8() {
    let mut server = server();
    let mut session = shell(&mut server);
    let actions = server.handle(&mut session, Event::Data(vec![b'e', b'c', b'h', b'o', b' ', 0xff, b'\r']));
    assert_eq!(
        actions,
        all(vec![
            vec![Action::Record(Direction::Inbound, vec![b'e', b'c', b'h', b'o', b' ', 0xff])],
            sent("\u{fffd} world"),
        ])
    );
}

#[test]
fn fault_in_one_session_leaves_the_other_alone() {
    let mut server = server();
    let mut one = shell(&mut server);
    let mut two = shell(&mut server);
    assert_eq!(server.handle(&mut one, data("uname\r")), vec![inbound("uname"), run("box", "uname")]);
    assert_eq!(server.handle(&mut two, data("uname -a\r")), vec![inbound("uname -a"), run("box", "uname -a")]);
    assert_eq!(server.handle(&mut one, Event::Executed(Outcome::Unreachable)), sent("unavailable\r\n"));
    assert_eq!(server.handle(&mut two, ok("Linux box\n")), sent("Linux box"));
    assert_eq!(server.handle(&mut two, data("ls\r")), all(vec![vec![inbound("ls")], sent("total 0")]));
    assert_eq!(server.handle(&mut one, Event::Disconnect), vec![]);
    assert_eq!(server.handle(&mut two, data("echo on\r")), all(vec![vec![inbound("echo on")], sent("on world")]));
    assert_eq!(one.mode(), Mode::Closed);
    assert_eq!(two.mode(), Mode::Shell);
}

#[test]
fn sessions_share_what_the_rules_remember() {
    let mut server = server();
    let mut one = shell(&mut server);
    let mut two = shell(&mut server);
    assert_eq!(server.handle(&mut one, data("uname\r")), vec![inbound("uname"), run("box", "uname")]);
    // The other session asks before the first execution has come back.
    assert_eq!(server.handle(&mut two, data("uname\r")), vec![inbound("uname"), run("box", "uname")]);
    assert_eq!(server.handle(&mut one, ok("first\n")), sent("first"));
    // What was remembered first stays, and is what the other session gets.
    assert_eq!(server.handle(&mut two, ok("second\n")), sent("first"));
    assert_eq!(server.service().rule(2).cached("@docker box uname"), Some("first".to_string()));
}

#[test]
fn closed_session_does_nothing() {
    let mut server = server();
    let mut session = shell(&mut server);
    assert_eq!(server.handle(&mut session, data("uname\rls")), vec![inbound("uname"), run("box", "uname")]);
    assert_eq!(server.handle(&mut session, Event::ChannelClose), vec![]);
    assert_eq!(session.mode(), Mode::Closed);
    assert!(!session.is_waiting());
    // The execution that was in flight is abandoned.
    assert_eq!(server.handle(&mut session, ok("late\n")), vec![]);
    assert_eq!(server.service().rule(2).cached("@docker box uname"), None);
    assert_eq!(server.handle(&mut session, data("ls\r")), vec![]);
    assert_eq!(server.handle(&mut session, Event::ChannelOpen), vec![]);
    assert_eq!(server.handle(&mut session, Event::ShellRequest), vec![]);
    assert_eq!(server.handle(&mut session, Event::ExecRequest("ls".to_string())), vec![]);
    assert_eq!(server.handle(&mut session, Event::Disconnect), vec![]);
    assert_eq!(session.mode(), Mode::Closed);
}

#[test]
fn data_is_ignored_while_a_single_command_is_served() {
    let mut server = server();
    let mut session = open(&mut server);
    server.handle(&mut session, Event::ExecRequest("uname".to_string()));
    assert_eq!(server.handle(&mut session, data("ls\r")), vec![]);
    assert_eq!(server.handle(&mut session, ok("Linux")), all(vec![sent("Linux"), vec![Action::Done]]));
}

#[test]
fn session_can_be_driven_without_a_server() {
    let config = ServiceConfig {
        proto: "any".to_string(),
        address: "".to_string(),
        commands: vec![rule("^hi$", "hello")],
        settings: Settings { terminator: b'\n', fallback: "?".to_string(), diagnostic: "!".to_string() },
    };
    let mut service = decoy::service::Service::new(&config).unwrap();
    let mut session = Session::new("x".to_string(), "y".to_string());
    session.handle(&mut service, Event::ChannelOpen);
    session.handle(&mut service, Event::ShellRequest);
    let actions = session.handle(&mut service, data("hi\nho\r\n"));
    assert_eq!(
        actions,
        all(vec![vec![inbound("hi")], sent("hello"), vec![inbound("ho\r")], sent("?")])
    );
}
