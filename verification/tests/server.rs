use decoy::command::Reply;
use decoy::server::{build, lookup, service_name, Named, Protocol, Server};
use decoy::service::{ConfigFault, RuleConfig, Service, ServiceConfig, Settings};
use decoy::session::Mode;

fn rule(parser: &str, handler: &str) -> RuleConfig {
    RuleConfig { parser: parser.to_string(), handler: handler.to_string() }
}

fn settings() -> Settings {
    Settings {
        terminator: b'\r',
        fallback: "command not found\r\n".to_string(),
        diagnostic: "resource temporarily unavailable\r\n".to_string(),
    }
}

fn config(proto: &str, address: &str, commands: Vec<RuleConfig>) -> ServiceConfig {
    ServiceConfig { proto: proto.to_string(), address: address.to_string(), commands, settings: settings() }
}

fn named(name: &str, config: ServiceConfig) -> Named {
    Named { name: name.to_string(), config }
}

#[test]
fn protocol_lookup() {
    assert_eq!(lookup("ssh"), Some(Protocol::Ssh));
    assert_eq!(lookup("SSH"), None);
    assert_eq!(lookup("ssh "), None);
    assert_eq!(lookup("ss"), None);
    assert_eq!(lookup("telnet"), None);
    assert_eq!(lookup(""), None);
}

#[test]
fn service_compiles_its_rules_in_order() {
    let service = Service::new(&config(
        "ssh",
        "0.0.0.0:2222",
        vec![rule("^ls$", "first"), rule("^l.*$", "second"), rule("^(.*)$", "{{$1}}: not found")],
    ))
    .unwrap();
    assert_eq!(service.len(), 3);
    assert_eq!(service.proto(), "ssh");
    assert_eq!(service.address(), "0.0.0.0:2222");
    assert_eq!(service.settings(), &settings());
    assert_eq!(service.rule(1).pattern(), "^l.*$");
    assert_eq!(service.rule(1).template(), "second");
    assert_eq!(service.dispatch("ls"), Some((0, Reply::Output("first".to_string()))));
    assert_eq!(service.dispatch("ll"), Some((1, Reply::Output("second".to_string()))));
    assert_eq!(service.dispatch("id"), Some((2, Reply::Output("id: not found".to_string()))));
}

#[test]
fn service_without_matching_rule() {
    let service = Service::new(&config("ssh", "a:1", vec![rule("^ls$", "x")])).unwrap();
    assert_eq!(service.dispatch("pwd"), None);
    let empty = Service::new(&config("ssh", "a:1", vec![])).unwrap();
    assert_eq!(empty.len(), 0);
    assert_eq!(empty.dispatch("pwd"), None);
}

#[test]
fn service_names_the_first_rejected_rule() {
    let r = Service::new(&config("ssh", "a:1", vec![rule("^ok$", "x"), rule("(", "y"), rule("[", "z")]));
    match r {
        Err(ConfigFault::InvalidPattern { rule, cause }) => {
            assert_eq!(rule, 1);
            assert_eq!(cause.pattern, "(");
        }
        other => panic!("unexpected {:?}", other.map(|_| ())),
    }
}

#[test]
fn server_for_a_known_protocol() {
    let server = Server::new("front".to_string(), &config("ssh", "a:22", vec![rule("^ls$", "x")])).unwrap();
    assert_eq!(server.name(), "front");
    assert_eq!(server.protocol(), Protocol::Ssh);
    assert_eq!(server.service().len(), 1);
    let session = server.accept("s-1".to_string(), "10.0.0.9:5151".to_string());
    assert_eq!(session.id(), "s-1");
    assert_eq!(session.remote(), "10.0.0.9:5151");
    assert_eq!(session.mode(), Mode::Fresh);
    assert!(!session.is_waiting());
}

#[test]
fn server_for_an_unknown_protocol() {
    let r = Server::new("front".to_string(), &config("gopher", "a:70", vec![rule("^ls$", "x")]));
    assert_eq!(r.err(), Some(ConfigFault::UnknownProtocol { proto: "gopher".to_string() }));
    // The protocol is looked up before any pattern is compiled.
    let r = Server::new("front".to_string(), &config("gopher", "a:70", vec![rule("(", "x")]));
    assert_eq!(r.err(), Some(ConfigFault::UnknownProtocol { proto: "gopher".to_string() }));
}

#[test]
fn startup_is_all_or_nothing() {
    let good = || config("ssh", "a:22", vec![rule("^ls$", "x")]);
    let bad = || config("ssh", "a:23", vec![rule("^ls$", "x"), rule("^foo(bar$", "y")]);

    let servers = build(&vec![named("one", good()), named("two", good())]).unwrap();
    assert_eq!(servers.len(), 2);
    assert_eq!(servers[0].name(), "one");
    assert_eq!(servers[1].name(), "two");

    for configs in [
        vec![named("one", good()), named("two", bad())],
        vec![named("two", bad()), named("one", good())],
    ] {
        let refusal = build(&configs).err().unwrap();
        assert_eq!(refusal.name, "two");
        assert_eq!(configs[refusal.index].name, "two");
        match refusal.fault {
            ConfigFault::InvalidPattern { rule, cause } => {
                assert_eq!(rule, 1);
                assert_eq!(cause.pattern, "^foo(bar$");
            }
            other => panic!("unexpected {:?}", other),
        }
    }
}

#[test]
fn startup_names_the_first_service_that_fails() {
    let configs = vec![
        named("a", config("ssh", "a:1", vec![])),
        named("b", config("ftp", "a:2", vec![])),
        named("c", config("ssh", "a:3", vec![rule("(", "x")])),
    ];
    let refusal = build(&configs).err().unwrap();
    assert_eq!(refusal.index, 1);
    assert_eq!(refusal.name, "b");
    assert_eq!(refusal.fault, ConfigFault::UnknownProtocol { proto: "ftp".to_string() });
}

#[test]
fn startup_with_no_service() {
    assert_eq!(build(&vec![]).unwrap().len(), 0);
}

#[test]
fn service_is_named_after_its_file() {
    assert_eq!(service_name("/srv/services.d", "/srv/services.d/ssh.yml"), "ssh");
    assert_eq!(service_name("/srv/services.d", "/srv/services.d/ssh/main.yml"), "ssh-main");
    assert_eq!(service_name("/srv/services.d", "/srv/services.d/a/b/c.yml"), "a-b-c");
    assert_eq!(service_name("/srv", "/srv//x.yml.yml"), "x");
    assert_eq!(service_name("/srv", "/srv/x.yaml"), "x.yaml");
    assert_eq!(service_name("/srv", "/srv/.yml"), "");
    assert_eq!(service_name("", "a/b.yml"), "a-b");
    assert_eq!(service_name("/srv", "/srv/a/srv/b.yml"), "a-b");
}
