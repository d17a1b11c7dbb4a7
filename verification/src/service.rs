//! A service: an ordered set of rules behind one address, with the settings
//! that its sessions share.

use crate::command::{Command, CommandView, Fault, Outcome, Reply, ReplyView};
use crate::matcher::{pattern_compiles, PatternError};
use vstd::prelude::*;

verus! {

/// A rule as the operator wrote it: a pattern and a response template.
#[derive(Debug, PartialEq, Eq)]
pub struct RuleConfig {
    pub parser: String,
    pub handler: String,
}

/// What the sessions of a service need to know besides its rules.
#[derive(Debug, PartialEq, Eq)]
pub struct Settings {
    /// The byte that ends a line in an interactive session.
    pub terminator: u8,
    /// What is sent where no rule matches.
    pub fallback: String,
    /// What is sent where an execution fails.
    pub diagnostic: String,
}

/// [`Settings`] as character sequences.
pub struct SettingsView {
    pub terminator: u8,
    pub fallback: Seq<char>,
    pub diagnostic: Seq<char>,
}

impl View for Settings {
    type V = SettingsView;

    open spec fn view(&self) -> SettingsView {
        SettingsView {
            terminator: self.terminator,
            fallback: self.fallback@,
            diagnostic: self.diagnostic@,
        }
    }
}

/// A service as the operator wrote it.
#[derive(Debug, PartialEq, Eq)]
pub struct ServiceConfig {
    /// The protocol kind, such as `ssh`.
    pub proto: String,
    /// The address to listen on.
    pub address: String,
    /// The rules, in the order in which they are tried.
    pub commands: Vec<RuleConfig>,
    pub settings: Settings,
}

/// Why a service could not be built.
#[derive(Debug, PartialEq, Eq)]
pub enum ConfigFault {
    /// The rule with index `rule` has a pattern that the matcher rejects.
    InvalidPattern { rule: usize, cause: PatternError },
    /// No adapter is known for the protocol kind.
    UnknownProtocol { proto: String },
}

/// A service as the contracts see it.
pub struct ServiceView {
    pub proto: Seq<char>,
    pub address: Seq<char>,
    pub rules: Seq<CommandView>,
    pub settings: SettingsView,
}

/// The rule that `config` describes, before anything is remembered.
pub open spec fn fresh_rule(config: RuleConfig) -> CommandView {
    CommandView { pattern: config.parser@, template: config.handler@, cache: Map::empty() }
}

/// The rules that `configs` describe, in order.
pub open spec fn fresh_rules(configs: Seq<RuleConfig>) -> Seq<CommandView> {
    Seq::new(configs.len(), |i: int| fresh_rule(configs[i]))
}

/// Whether the matcher accepts the pattern of every rule.
pub open spec fn all_compile(configs: Seq<RuleConfig>) -> bool {
    forall|i: int| 0 <= i < configs.len() ==> pattern_compiles(#[trigger] configs[i].parser@)
}

/// Whether `i` is the first rule whose pattern the matcher rejects.
pub open spec fn first_rejected(configs: Seq<RuleConfig>, i: int) -> bool {
    &&& 0 <= i < configs.len()
    &&& !pattern_compiles(configs[i].parser@)
    &&& forall|j: int| 0 <= j < i ==> pattern_compiles(#[trigger] configs[j].parser@)
}

/// The service that `config` describes, before anything is remembered.
pub open spec fn fresh_service(config: ServiceConfig) -> ServiceView {
    ServiceView {
        proto: config.proto@,
        address: config.address@,
        rules: fresh_rules(config.commands@),
        settings: config.settings@,
    }
}

impl ServiceView {
    /// Every rule is well formed.
    pub open spec fn well_formed(self) -> bool {
        forall|i: int| 0 <= i < self.rules.len() ==> (#[trigger] self.rules[i]).well_formed()
    }

    /// Whether rule `i` is the first that matches `line`.
    pub open spec fn first_match(self, line: Seq<char>, i: int) -> bool {
        &&& 0 <= i < self.rules.len()
        &&& self.rules[i].answer(line) is Some
        &&& forall|j: int| 0 <= j < i ==> (#[trigger] self.rules[j]).answer(line) is None
    }

    /// Whether no rule matches `line`.
    pub open spec fn no_match(self, line: Seq<char>) -> bool {
        forall|j: int| 0 <= j < self.rules.len() ==> (#[trigger] self.rules[j]).answer(line) is None
    }

    /// This service after rule `rule` has taken note of `outcome` for `key`.
    pub open spec fn noted(self, rule: int, key: Seq<char>, outcome: Outcome) -> ServiceView {
        ServiceView { rules: self.rules.update(rule, self.rules[rule].noted(key, outcome)), ..self }
    }
}

/// A service: its rules, compiled, with what they remember.
pub struct Service {
    proto: String,
    address: String,
    rules: Vec<Command>,
    settings: Settings,
}

impl View for Service {
    type V = ServiceView;

    closed spec fn view(&self) -> ServiceView {
        ServiceView {
            proto: self.proto@,
            address: self.address@,
            rules: self.rules@.map_values(|rule: Command| rule@),
            settings: self.settings@,
        }
    }
}

impl Service {
    /// Builds the service that `config` describes, compiling every pattern.
    /// Fails at the first rule whose pattern the matcher rejects; nothing is
    /// built then.
    pub fn new(config: &ServiceConfig) -> (r: Result<Service, ConfigFault>)
        ensures
            r is Ok <==> all_compile(config.commands@),
            r matches Ok(service) ==> service@ == fresh_service(*config) && service@.well_formed(),
            r matches Err(e) ==> e matches ConfigFault::InvalidPattern { rule, cause }
                && first_rejected(config.commands@, rule as int) && cause.pattern@
                == config.commands@[rule as int].parser@,
    {
        let mut rules: Vec<Command> = Vec::new();
        let mut i: usize = 0;
        while i < config.commands.len()
            invariant
                i <= config.commands.len(),
                rules.len() == i,
                forall|j: int|
                    0 <= j < i ==> pattern_compiles(#[trigger] config.commands@[j].parser@),
                forall|j: int|
                    0 <= j < i ==> (#[trigger] rules@[j])@ == fresh_rule(config.commands@[j]),
            decreases config.commands.len() - i,
        {
            let rule = &config.commands[i];
            match Command::new(rule.parser.as_str(), rule.handler.as_str()) {
                Ok(compiled) => {
                    rules.push(compiled);
                },
                Err(cause) => {
                    return Err(ConfigFault::InvalidPattern { rule: i, cause });
                },
            }
            i += 1;
        }
        let service = Service {
            proto: config.proto.clone(),
            address: config.address.clone(),
            rules,
            settings: Settings {
                terminator: config.settings.terminator,
                fallback: config.settings.fallback.clone(),
                diagnostic: config.settings.diagnostic.clone(),
            },
        };
        assert(service@.rules =~= fresh_rules(config.commands@));
        Ok(service)
    }

    /// The protocol kind.
    pub fn proto(&self) -> (s: &str)
        ensures
            s@ == self@.proto,
    {
        self.proto.as_str()
    }

    /// The address to listen on.
    pub fn address(&self) -> (s: &str)
        ensures
            s@ == self@.address,
    {
        self.address.as_str()
    }

    /// The settings that the sessions share.
    pub fn settings(&self) -> (s: &Settings)
        ensures
            s@ == self@.settings,
    {
        &self.settings
    }

    /// The number of rules.
    pub fn len(&self) -> (n: usize)
        ensures
            n == self@.rules.len(),
    {
        self.rules.len()
    }

    /// Rule `i`.
    pub fn rule(&self, i: usize) -> (rule: &Command)
        requires
            i < self@.rules.len(),
        ensures
            rule@ == self@.rules[i as int],
    {
        &self.rules[i]
    }

    /// Answers `line` with the first rule that matches it, and says which
    /// rule that is: `None` where no rule matches.
    pub fn dispatch(&self, line: &str) -> (r: Option<(usize, Reply)>)
        ensures
            match r {
                Some((i, reply)) => {
                    &&& self@.first_match(line@, i as int)
                    &&& self@.rules[i as int].answer(line@) == Some(reply@)
                },
                None => self@.no_match(line@),
            },
    {
        let mut i: usize = 0;
        while i < self.rules.len()
            invariant
                i <= self.rules.len(),
                forall|j: int| 0 <= j < i ==> (#[trigger] self@.rules[j]).answer(line@) is None,
            decreases self.rules.len() - i,
        {
            match self.rules[i].parse(line) {
                Some(reply) => {
                    return Some((i, reply));
                },
                None => {},
            }
            i += 1;
        }
        None
    }

    /// Hands rule `rule` what the sandbox returned for the execution with
    /// the cache key `key`; see [`Command::complete`].
    pub fn complete(&mut self, rule: usize, key: &str, outcome: &Outcome) -> (r: Result<
        String,
        Fault,
    >)
        requires
            rule < old(self)@.rules.len(),
        ensures
            final(self)@ == old(self)@.noted(rule as int, key@, *outcome),
            match r {
                Ok(output) => old(self)@.rules[rule as int].settled(key@, *outcome) == Ok::<
                    Seq<char>,
                    Fault,
                >(output@),
                Err(fault) => old(self)@.rules[rule as int].settled(key@, *outcome) == Err::<
                    Seq<char>,
                    Fault,
                >(fault),
            },
            old(self)@.well_formed() ==> final(self)@.well_formed(),
    {
        let r = self.rules[rule].complete(key, outcome);
        assert(self@.rules =~= old(self)@.rules.update(
            rule as int,
            old(self)@.rules[rule as int].noted(key@, *outcome),
        ));
        r
    }
}

/// No two rules are the first to match a line.
pub proof fn lemma_first_match_is_unique(service: ServiceView, line: Seq<char>, i: int, j: int)
    requires
        service.first_match(line, i),
        service.first_match(line, j),
    ensures
        i == j,
{
    if i < j {
        assert(service.rules[i].answer(line) is None);
    } else if j < i {
        assert(service.rules[j].answer(line) is None);
    }
}

} // verus!
