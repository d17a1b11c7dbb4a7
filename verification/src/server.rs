//! The service orchestrator: it builds one server for each configured
//! service, all of them or none, and each server hands out the sessions of
//! its connections.

use crate::service::{
    all_compile, first_rejected, fresh_service, ConfigFault, Service, ServiceConfig, ServiceView,
};
use crate::session::{step, views, Action, Event, Mode, Session, SessionView};
use crate::text::{
    replace_all, replaced, strip_leading, strip_trailing, to_chars, to_string, without_leading,
    without_trailing,
};
use vstd::prelude::*;

verus! {

/// The protocols for which an adapter exists.
#[derive(Clone, Copy, Debug, PartialEq, Eq)]
pub enum Protocol {
    Ssh,
}

/// The protocol that a service names, if an adapter exists for it.
pub open spec fn protocol_named(name: Seq<char>) -> Option<Protocol> {
    if name == seq!['s', 's', 'h'] {
        Some(Protocol::Ssh)
    } else {
        None
    }
}

/// Looks up the protocol that a service names.
pub fn lookup(name: &str) -> (r: Option<Protocol>)
    ensures
        r == protocol_named(name@),
{
    let chars = to_chars(name);
    if chars.len() == 3 && chars[0] == 's' && chars[1] == 's' && chars[2] == 'h' {
        assert(name@ =~= seq!['s', 's', 'h']);
        Some(Protocol::Ssh)
    } else {
        None
    }
}

/// The extension of a service file: `.yml`.
pub open spec fn extension() -> Seq<char> {
    seq!['.', 'y', 'm', 'l']
}

/// The name of the service whose file is `path`, found below the directory
/// `root`: the path without the root, without the slashes it then begins
/// with and without the extension, and with a hyphen for each slash left.
pub open spec fn name_of(root: Seq<char>, path: Seq<char>) -> Seq<char> {
    replaced(
        without_trailing(without_leading(replaced(path, root, Seq::empty()), '/'), extension()),
        seq!['/'],
        seq!['-'],
    )
}

/// Names the service whose file is `path`, found below the directory
/// `root`.
pub fn service_name(root: &str, path: &str) -> (name: String)
    ensures
        name@ == name_of(root@, path@),
{
    let nothing: Vec<char> = Vec::new();
    let mut suffix: Vec<char> = Vec::new();
    suffix.push('.');
    suffix.push('y');
    suffix.push('m');
    suffix.push('l');
    let mut slash: Vec<char> = Vec::new();
    slash.push('/');
    let mut hyphen: Vec<char> = Vec::new();
    hyphen.push('-');
    assert(nothing@ =~= Seq::empty());
    assert(suffix@ =~= extension());
    assert(slash@ =~= seq!['/']);
    assert(hyphen@ =~= seq!['-']);
    let below = replace_all(&to_chars(path), &to_chars(root), &nothing);
    let stem = strip_trailing(&strip_leading(&below, '/'), &suffix);
    to_string(&replace_all(&stem, &slash, &hyphen))
}

/// A configured service under its name.
#[derive(Debug, PartialEq, Eq)]
pub struct Named {
    pub name: String,
    pub config: ServiceConfig,
}

/// The service that could not be built, and why.
#[derive(Debug, PartialEq, Eq)]
pub struct Refusal {
    /// The index of the service among those to build.
    pub index: usize,
    /// The name of the service.
    pub name: String,
    pub fault: ConfigFault,
}

/// A server as the contracts see it.
pub struct ServerView {
    pub name: Seq<char>,
    pub protocol: Protocol,
    pub service: ServiceView,
}

/// Whether a server can be built for `config`: an adapter exists for its
/// protocol and the matcher accepts every pattern.
pub open spec fn constructible(config: ServiceConfig) -> bool {
    protocol_named(config.proto@) is Some && all_compile(config.commands@)
}

/// The server for the service `config` under the name `name`, before
/// anything is remembered.
pub open spec fn fresh_server(name: Seq<char>, config: ServiceConfig) -> ServerView {
    ServerView {
        name,
        protocol: protocol_named(config.proto@)->0,
        service: fresh_service(config),
    }
}

/// Whether `fault` is the reason for which no server can be built for
/// `config`: the protocol is looked up before the rules are compiled.
pub open spec fn refused_for(config: ServiceConfig, fault: ConfigFault) -> bool {
    match fault {
        ConfigFault::UnknownProtocol { proto } => protocol_named(config.proto@) is None && proto@
            == config.proto@,
        ConfigFault::InvalidPattern { rule, cause } => protocol_named(config.proto@) is Some
            && first_rejected(config.commands@, rule as int) && cause.pattern@
            == config.commands@[rule as int].parser@,
    }
}

/// Whether service `i` is the first for which no server can be built.
pub open spec fn first_refused(configs: Seq<Named>, i: int) -> bool {
    &&& 0 <= i < configs.len()
    &&& !constructible(configs[i].config)
    &&& forall|j: int| 0 <= j < i ==> constructible(#[trigger] configs[j].config)
}

/// The adapter of one service: its name, its protocol and the rules that
/// its sessions share.
pub struct Server {
    service_name: String,
    protocol: Protocol,
    service: Service,
}

impl View for Server {
    type V = ServerView;

    closed spec fn view(&self) -> ServerView {
        ServerView { name: self.service_name@, protocol: self.protocol, service: self.service@ }
    }
}

impl Server {
    /// Builds the server for the service `config` under the name
    /// `service_name`. Fails where no adapter exists for the protocol or the
    /// matcher rejects a pattern, and exactly there.
    pub fn new(service_name: String, config: &ServiceConfig) -> (r: Result<Server, ConfigFault>)
        ensures
            r is Ok <==> constructible(*config),
            r matches Ok(server) ==> server@ == fresh_server(service_name@, *config)
                && server@.service.well_formed(),
            r matches Err(fault) ==> refused_for(*config, fault),
    {
        let protocol = match lookup(config.proto.as_str()) {
            Some(protocol) => protocol,
            None => {
                return Err(ConfigFault::UnknownProtocol { proto: config.proto.clone() });
            },
        };
        match Service::new(config) {
            Ok(service) => Ok(Server { service_name, protocol, service }),
            Err(fault) => Err(fault),
        }
    }

    /// The name of the service.
    pub fn name(&self) -> (s: &str)
        ensures
            s@ == self@.name,
    {
        self.service_name.as_str()
    }

    /// The protocol that the service speaks.
    pub fn protocol(&self) -> (protocol: Protocol)
        ensures
            protocol == self@.protocol,
    {
        self.protocol
    }

    /// The service with its rules.
    pub fn service(&self) -> (service: &Service)
        ensures
            service@ == self@.service,
    {
        &self.service
    }

    /// The session for a connection from `remote` that has just been
    /// accepted.
    pub fn accept(&self, id: String, remote: String) -> (session: Session)
        ensures
            session@ == (SessionView {
                id: id@,
                remote: remote@,
                mode: Mode::Fresh,
                queue: Seq::empty(),
                waiting: None,
            }),
    {
        Session::new(id, remote)
    }

    /// Hands `event` to `session`, which consults the rules of this server;
    /// see [`Session::handle`].
    pub fn handle(&mut self, session: &mut Session, event: Event) -> (actions: Vec<Action>)
        ensures
            final(session)@ == step(old(session)@, old(self)@.service, event).session,
            final(self)@ == (ServerView {
                service: step(old(session)@, old(self)@.service, event).service,
                ..old(self)@
            }),
            views(actions@) == step(old(session)@, old(self)@.service, event).actions,
            old(self)@.service.well_formed() ==> final(self)@.service.well_formed(),
    {
        session.handle(&mut self.service, event)
    }
}

/// Builds a server for every configured service, in order. Startup is all
/// or nothing: where one service cannot be built no server is returned,
/// and the first such service is named with the reason.
pub fn build(configs: &Vec<Named>) -> (r: Result<Vec<Server>, Refusal>)
    ensures
        r is Ok <==> forall|i: int|
            0 <= i < configs.len() ==> constructible(#[trigger] configs@[i].config),
        r matches Ok(servers) ==> servers.len() == configs.len() && forall|i: int|
            0 <= i < configs.len() ==> (#[trigger] servers@[i])@ == fresh_server(
                configs@[i].name@,
                configs@[i].config,
            ),
        r matches Err(refusal) ==> first_refused(configs@, refusal.index as int) && refusal.name@
            == configs@[refusal.index as int].name@ && refused_for(
            configs@[refusal.index as int].config,
            refusal.fault,
        ),
{
    let mut servers: Vec<Server> = Vec::new();
    let mut i: usize = 0;
    while i < configs.len()
        invariant
            i <= configs.len(),
            servers.len() == i,
            forall|j: int| 0 <= j < i ==> constructible(#[trigger] configs@[j].config),
            forall|j: int|
                0 <= j < i ==> (#[trigger] servers@[j])@ == fresh_server(
                    configs@[j].name@,
                    configs@[j].config,
                ),
        decreases configs.len() - i,
    {
        let named = &configs[i];
        match Server::new(named.name.clone(), &named.config) {
            Ok(server) => {
                servers.push(server);
            },
            Err(fault) => {
                return Err(Refusal { index: i, name: named.name.clone(), fault });
            },
        }
        i += 1;
    }
    Ok(servers)
}

} // verus!
