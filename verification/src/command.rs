//! The command engine: a rule pairs a pattern with a response template and
//! remembers what its live executions produced.
//!
//! A rule never runs anything itself. Where a response has to come from the
//! sandbox, [`Command::parse`] says so with [`Reply::Execute`]; the caller
//! runs the command and hands what came back to [`Command::complete`].

use crate::matcher::{found, found_view, groups_view, pattern_compiles, Matcher, PatternError};
use crate::text::{
    append, decimal, decode, find_from, first_index, lemma_first_index,
    lemma_replaced_tells_apart, lossy_text, occurs, occurs_at, replace_all, replaced, slice,
    to_chars, to_decimal, to_string, trim, trimmed,
};
use vstd::hash_map::StringHashMap;
use vstd::prelude::*;

verus! {

/// Why a dispatch that reached the sandbox directive produced no output.
#[derive(Clone, Copy, Debug, PartialEq, Eq)]
pub enum Fault {
    /// The directive names no command body.
    Malformed,
    /// The sandbox could not be reached or its output could not be read.
    Unreachable,
    /// The command ran and did not exit with status zero; `None` where it
    /// was ended without a status.
    Failed(Option<i32>),
}

/// A command to run in a sandbox, and the cache key its output belongs to.
#[derive(Debug, PartialEq, Eq)]
pub struct Execution {
    /// The fully substituted template.
    pub key: String,
    /// The sandbox target.
    pub target: String,
    /// The command for the target's shell.
    pub body: String,
}

/// An [`Execution`] as character sequences.
pub struct ExecutionView {
    pub key: Seq<char>,
    pub target: Seq<char>,
    pub body: Seq<char>,
}

impl View for Execution {
    type V = ExecutionView;

    open spec fn view(&self) -> ExecutionView {
        ExecutionView { key: self.key@, target: self.target@, body: self.body@ }
    }
}

/// What a rule answers to an input that it matches.
#[derive(Debug, PartialEq, Eq)]
pub enum Reply {
    /// The output to send: a literal response, or one remembered from an
    /// earlier execution.
    Output(String),
    /// The output has to be produced by running a command in the sandbox.
    Execute(Execution),
    /// The substituted template is a directive that cannot be run.
    Fault(Fault),
}

/// A [`Reply`] as character sequences.
pub enum ReplyView {
    Output(Seq<char>),
    Execute(ExecutionView),
    Fault(Fault),
}

impl View for Reply {
    type V = ReplyView;

    open spec fn view(&self) -> ReplyView {
        match self {
            Reply::Output(s) => ReplyView::Output(s@),
            Reply::Execute(e) => ReplyView::Execute(e@),
            Reply::Fault(f) => ReplyView::Fault(*f),
        }
    }
}

/// What came back from the sandbox.
#[derive(Debug, PartialEq, Eq)]
pub enum Outcome {
    /// The command ran to its end.
    Exited { status: Option<i32>, stderr: Vec<u8>, stdout: Vec<u8> },
    /// The command could not be started, or its output could not be read.
    Unreachable,
}

/// How a substituted template is to be answered when nothing is remembered
/// for it.
pub enum Directive {
    /// Not a directive: the text is the response.
    Literal,
    /// A directive without a command body.
    Malformed,
    /// Run `body` in `target`.
    Run { target: Seq<char>, body: Seq<char> },
}

/// The placeholder for capture group `n`: `{{$n}}`.
pub open spec fn token(n: nat) -> Seq<char> {
    seq!['{', '{', '$'] + decimal(n) + seq!['}', '}']
}

/// `template` after the groups `1..k` have been substituted, in ascending
/// order. A group that took no part in the match leaves its placeholder.
pub open spec fn substituted_upto(
    template: Seq<char>,
    groups: Seq<Option<Seq<char>>>,
    k: nat,
) -> Seq<char>
    decreases k,
{
    if k <= 1 {
        template
    } else {
        let before = substituted_upto(template, groups, (k - 1) as nat);
        match groups[k - 1] {
            Some(group) => replaced(before, token((k - 1) as nat), group),
            None => before,
        }
    }
}

/// `template` with the placeholder of every capture group replaced by what
/// the group matched. Group 0, the whole match, is not substituted.
pub open spec fn substituted(template: Seq<char>, groups: Seq<Option<Seq<char>>>) -> Seq<char> {
    substituted_upto(template, groups, groups.len())
}

/// The prefix that marks a live-execution directive: `@docker` and a space.
pub open spec fn directive_tag() -> Seq<char> {
    seq!['@', 'd', 'o', 'c', 'k', 'e', 'r', ' ']
}

/// Reads `text` as a directive: after the tag, the target runs up to the
/// next space and the body is all that follows that space.
pub open spec fn directive(text: Seq<char>) -> Directive {
    if !directive_tag().is_prefix_of(text) {
        Directive::Literal
    } else {
        let rest = text.skip(directive_tag().len() as int);
        let cut = first_index(rest, ' ');
        if cut >= rest.len() {
            Directive::Malformed
        } else {
            Directive::Run { target: rest.take(cut), body: rest.skip(cut + 1) }
        }
    }
}

/// The answer to `text` when nothing is remembered for it.
pub open spec fn fresh_reply(text: Seq<char>) -> ReplyView {
    match directive(text) {
        Directive::Literal => ReplyView::Output(text),
        Directive::Malformed => ReplyView::Fault(Fault::Malformed),
        Directive::Run { target, body } => ReplyView::Execute(
            ExecutionView { key: text, target, body },
        ),
    }
}

/// The answer to the substituted template `text`: what the cache holds for
/// it, else what the text itself asks for.
pub open spec fn reply_for(cache: Map<Seq<char>, Seq<char>>, text: Seq<char>) -> ReplyView {
    if cache.contains_key(text) {
        ReplyView::Output(cache[text])
    } else {
        fresh_reply(text)
    }
}

/// The answer of a rule to an input, given what the matcher found in it.
pub open spec fn response(
    template: Seq<char>,
    cache: Map<Seq<char>, Seq<char>>,
    found: Option<Seq<Option<Seq<char>>>>,
) -> Option<ReplyView> {
    match found {
        None => None,
        Some(groups) => Some(reply_for(cache, substituted(template, groups))),
    }
}

/// The output of a finished execution as it is sent and remembered: the
/// error stream, then the output stream, each without the white space
/// around it, and every line feed preceded by a carriage return.
pub open spec fn rendered(stderr: Seq<u8>, stdout: Seq<u8>) -> Seq<char> {
    replaced(
        trimmed(lossy_text(stderr)) + trimmed(lossy_text(stdout)),
        seq!['\n'],
        seq!['\r', '\n'],
    )
}

/// What an outcome of the sandbox amounts to: output, or a fault.
pub open spec fn evaluated(outcome: Outcome) -> Result<Seq<char>, Fault> {
    match outcome {
        Outcome::Unreachable => Err(Fault::Unreachable),
        Outcome::Exited { status, stderr, stdout } => if status == Some(0i32) {
            Ok(rendered(stderr@, stdout@))
        } else {
            Err(Fault::Failed(status))
        },
    }
}

/// A rule as the contracts see it.
pub struct CommandView {
    /// The pattern text.
    pub pattern: Seq<char>,
    /// The response template.
    pub template: Seq<char>,
    /// The remembered outputs, by substituted template.
    pub cache: Map<Seq<char>, Seq<char>>,
}

impl CommandView {
    /// The pattern compiles, and the cache holds only what an execution can
    /// have produced: every key is a directive that can be run.
    pub open spec fn well_formed(self) -> bool {
        &&& pattern_compiles(self.pattern)
        &&& forall|key: Seq<char>| #[trigger]
            self.cache.contains_key(key) ==> directive(key) is Run
    }

    /// The answer of this rule to `input`: `None` where the pattern does
    /// not match it.
    pub open spec fn answer(self, input: Seq<char>) -> Option<ReplyView> {
        response(self.template, self.cache, found(self.pattern, input))
    }

    /// This rule after it has taken note of `outcome` for `key`. Only the
    /// output of a successful execution is remembered, only under a key that
    /// is a runnable directive, and what is remembered is never replaced.
    pub open spec fn noted(self, key: Seq<char>, outcome: Outcome) -> CommandView {
        if evaluated(outcome) is Ok && directive(key) is Run && !self.cache.contains_key(key) {
            CommandView { cache: self.cache.insert(key, evaluated(outcome)->Ok_0), ..self }
        } else {
            self
        }
    }

    /// What the caller is handed once `outcome` has come back for `key`.
    pub open spec fn settled(self, key: Seq<char>, outcome: Outcome) -> Result<Seq<char>, Fault> {
        match evaluated(outcome) {
            Err(fault) => Err(fault),
            Ok(output) => if !(directive(key) is Run) {
                Err(Fault::Malformed)
            } else if self.cache.contains_key(key) {
                Ok(self.cache[key])
            } else {
                Ok(output)
            },
        }
    }
}

/// A command rule: a pattern with its compiled form, a response template,
/// and the cache of outputs that live executions produced.
pub struct Command {
    parser: Matcher,
    handler: String,
    cache: StringHashMap<String>,
}

impl View for Command {
    type V = CommandView;

    closed spec fn view(&self) -> CommandView {
        CommandView {
            pattern: self.parser@,
            template: self.handler@,
            cache: self.cache@.map_values(|s: String| s@),
        }
    }
}

/// Writes the placeholder for capture group `n`.
pub fn placeholder(n: usize) -> (v: Vec<char>)
    ensures
        v@ == token(n as nat),
{
    let mut v: Vec<char> = Vec::new();
    v.push('{');
    v.push('{');
    v.push('$');
    let digits = to_decimal(n);
    append(&mut v, &digits);
    v.push('}');
    v.push('}');
    assert(v@ =~= token(n as nat));
    v
}

/// Substitutes the capture groups into `template`.
pub fn substitute(template: &str, groups: &Vec<Option<String>>) -> (text: Vec<char>)
    ensures
        text@ == substituted(template@, groups_view(groups@)),
{
    let mut text = to_chars(template);
    let mut n: usize = 1;
    while n < groups.len()
        invariant
            1 <= n,
            n <= groups.len() || n == 1,
            text@ == substituted_upto(template@, groups_view(groups@), n as nat),
        decreases groups.len() - n,
    {
        match &groups[n] {
            Some(group) => {
                let with = to_chars(group.as_str());
                let mark = placeholder(n);
                text = replace_all(&text, &mark, &with);
            },
            None => {},
        }
        n += 1;
    }
    text
}

/// Writes the directive tag.
fn tag() -> (v: Vec<char>)
    ensures
        v@ == directive_tag(),
{
    let mut v: Vec<char> = Vec::new();
    v.push('@');
    v.push('d');
    v.push('o');
    v.push('c');
    v.push('k');
    v.push('e');
    v.push('r');
    v.push(' ');
    assert(v@ =~= directive_tag());
    v
}

/// Answers a substituted template for which nothing is remembered. Where
/// an execution is asked for, the text is the tag, the target, one space
/// and the body, and the target holds no space.
pub fn interpret(text: &Vec<char>) -> (reply: Reply)
    ensures
        reply@ == fresh_reply(text@),
        reply matches Reply::Execute(e) ==> text@ == directive_tag() + e.target@ + seq![' ']
            + e.body@ && !e.target@.contains(' '),
{
    let mark = tag();
    assert(text@.skip(0) =~= text@);
    if !occurs_at(text, 0, &mark) {
        return Reply::Output(to_string(text));
    }
    let from: usize = mark.len();
    let cut = find_from(text, from, ' ');
    if cut >= text.len() {
        return Reply::Fault(Fault::Malformed);
    }
    let target = slice(text, from, cut);
    let body = slice(text, cut + 1, text.len());
    proof {
        let rest = text@.skip(from as int);
        let at = first_index(rest, ' ');
        lemma_first_index(rest, ' ');
        assert(rest.take(at) =~= target@);
        assert(rest.skip(at + 1) =~= body@);
        assert(text@ =~= directive_tag() + target@ + seq![' '] + body@);
        assert forall|i: int| 0 <= i < target@.len() implies target@[i] != ' ' by {
            assert(target@[i] == rest[i]);
        }
    }
    Reply::Execute(
        Execution { key: to_string(text), target: to_string(&target), body: to_string(&body) },
    )
}

/// Whether `text` is a directive that can be run.
pub fn runnable(text: &Vec<char>) -> (b: bool)
    ensures
        b == directive(text@) is Run,
{
    let mark = tag();
    assert(text@.skip(0) =~= text@);
    occurs_at(text, 0, &mark) && find_from(text, mark.len(), ' ') < text.len()
}

/// Renders the two streams of a finished execution.
pub fn render(stderr: &Vec<u8>, stdout: &Vec<u8>) -> (text: Vec<char>)
    ensures
        text@ == rendered(stderr@, stdout@),
{
    let errors = to_chars(decode(stderr).as_str());
    let output = to_chars(decode(stdout).as_str());
    let mut data = trim(&errors);
    let tail = trim(&output);
    append(&mut data, &tail);
    let mut feed: Vec<char> = Vec::new();
    feed.push('\n');
    let mut pair: Vec<char> = Vec::new();
    pair.push('\r');
    pair.push('\n');
    assert(feed@ =~= seq!['\n']);
    assert(pair@ =~= seq!['\r', '\n']);
    replace_all(&data, &feed, &pair)
}

impl Command {
    /// Compiles `parser` and pairs it with the template `handler`. Fails
    /// exactly where the matcher rejects the pattern.
    pub fn new(parser: &str, handler: &str) -> (r: Result<Command, PatternError>)
        ensures
            r is Ok <==> pattern_compiles(parser@),
            r matches Ok(rule) ==> rule@ == (CommandView {
                pattern: parser@,
                template: handler@,
                cache: Map::empty(),
            }) && rule@.well_formed(),
            r matches Err(e) ==> e.pattern@ == parser@,
    {
        match Matcher::new(parser) {
            Ok(matcher) => {
                let rule = Command {
                    parser: matcher,
                    handler: handler.to_owned(),
                    cache: StringHashMap::new(),
                };
                assert(rule@.cache =~= Map::empty());
                Ok(rule)
            },
            Err(e) => Err(e),
        }
    }

    /// The pattern text.
    pub fn pattern(&self) -> (s: &str)
        ensures
            s@ == self@.pattern,
    {
        self.parser.pattern()
    }

    /// The response template.
    pub fn template(&self) -> (s: &str)
        ensures
            s@ == self@.template,
    {
        self.handler.as_str()
    }

    /// The output remembered for the substituted template `key`.
    pub fn cached(&self, key: &str) -> (r: Option<String>)
        ensures
            r is Some <==> self@.cache.contains_key(key@),
            r matches Some(s) ==> s@ == self@.cache[key@],
    {
        match self.cache.get(key) {
            Some(s) => Some(s.clone()),
            None => None,
        }
    }

    /// Matches `command` against the pattern and answers it: `None` where
    /// the pattern does not match, else the remembered output, the literal
    /// response, or the execution that has to produce the output.
    pub fn parse(&self, command: &str) -> (r: Option<Reply>)
        ensures
            r is None <==> found(self@.pattern, command@) is None,
            match r {
                Some(reply) => self@.answer(command@) == Some(reply@),
                None => self@.answer(command@) is None,
            },
    {
        let groups = self.parser.search(command);
        self.respond(&groups)
    }

    /// Answers an input in which the matcher found `groups`.
    pub fn respond(&self, groups: &Option<Vec<Option<String>>>) -> (r: Option<Reply>)
        ensures
            r is None <==> groups is None,
            match r {
                Some(reply) => response(self@.template, self@.cache, found_view(*groups)) == Some(
                    reply@,
                ),
                None => response(self@.template, self@.cache, found_view(*groups)) is None,
            },
    {
        match groups {
            None => None,
            Some(groups) => {
                let text = substitute(self.handler.as_str(), groups);
                let key = to_string(&text);
                match self.cache.get(key.as_str()) {
                    Some(output) => Some(Reply::Output(output.clone())),
                    None => Some(interpret(&text)),
                }
            },
        }
    }

    /// Takes note of what the sandbox returned for the execution with the
    /// cache key `key`. A successful execution is rendered, remembered and
    /// returned; where an output is already remembered for the key, that
    /// output stays and is returned. A fault is reported and leaves the
    /// rule as it was.
    pub fn complete(&mut self, key: &str, outcome: &Outcome) -> (r: Result<String, Fault>)
        ensures
            final(self)@ == old(self)@.noted(key@, *outcome),
            match r {
                Ok(output) => old(self)@.settled(key@, *outcome) == Ok::<Seq<char>, Fault>(
                    output@,
                ),
                Err(fault) => old(self)@.settled(key@, *outcome) == Err::<Seq<char>, Fault>(
                    fault,
                ),
            },
            old(self)@.well_formed() ==> final(self)@.well_formed(),
    {
        match outcome {
            Outcome::Unreachable => Err(Fault::Unreachable),
            Outcome::Exited { status, stderr, stdout } => {
                if !is_success(status) {
                    return Err(Fault::Failed(*status));
                }
                if !runnable(&to_chars(key)) {
                    return Err(Fault::Malformed);
                }
                match self.cache.get(key) {
                    Some(output) => Ok(output.clone()),
                    None => {
                        let text = render(stderr, stdout);
                        let output = to_string(&text);
                        self.cache.insert(key.to_owned(), output.clone());
                        assert(self@.cache =~= old(self)@.cache.insert(key@, output@));
                        Ok(output)
                    },
                }
            },
        }
    }
}

/// Whether an exit status reports success.
pub fn is_success(status: &Option<i32>) -> (b: bool)
    ensures
        b == (*status == Some(0i32)),
{
    match status {
        Some(code) => *code == 0,
        None => false,
    }
}

/// Substituting into an empty template leaves it empty.
pub proof fn lemma_empty_template_stays_empty(groups: Seq<Option<Seq<char>>>, k: nat)
    ensures
        substituted_upto(Seq::empty(), groups, k) == Seq::<char>::empty(),
    decreases k,
{
    if k > 1 {
        lemma_empty_template_stays_empty(groups, (k - 1) as nat);
    }
}

/// A match is never mistaken for a miss: a rule answers an input exactly
/// where its pattern matches it, and a well-formed rule with an empty
/// template answers every match with the empty output.
pub proof fn lemma_match_is_told_from_miss(rule: CommandView, input: Seq<char>)
    ensures
        rule.answer(input) is None <==> found(rule.pattern, input) is None,
        rule.well_formed() && rule.template.len() == 0 && found(rule.pattern, input) is Some
            ==> rule.answer(input) == Some(ReplyView::Output(Seq::empty())),
{
    if rule.template.len() == 0 && found(rule.pattern, input) is Some {
        let groups = found(rule.pattern, input)->0;
        assert(rule.template =~= Seq::empty());
        lemma_empty_template_stays_empty(groups, groups.len());
        assert(!directive_tag().is_prefix_of(Seq::<char>::empty()));
    }
}

/// An execution is asked for once: when a rule has asked for the execution
/// with key `key` and has taken note of its successful outcome, every match
/// that substitutes to the same key is answered with the output that was
/// handed out then, and no further execution is asked for.
pub proof fn lemma_noted_output_is_replayed(
    rule: CommandView,
    key: Seq<char>,
    outcome: Outcome,
    groups: Seq<Option<Seq<char>>>,
)
    requires
        substituted(rule.template, groups) == key,
        response(rule.template, rule.cache, Some(groups)) is Some,
        response(rule.template, rule.cache, Some(groups))->0 is Execute,
        evaluated(outcome) is Ok,
    ensures
        rule.settled(key, outcome) is Ok,
        response(rule.template, rule.noted(key, outcome).cache, Some(groups)) == Some(
            ReplyView::Output(rule.settled(key, outcome)->Ok_0),
        ),
        rule.noted(key, outcome).settled(key, outcome) == rule.settled(key, outcome),
{
}

/// What is remembered stays: taking note of an outcome changes neither the
/// pattern nor the template, removes no entry and alters none.
pub proof fn lemma_cache_only_grows(rule: CommandView, key: Seq<char>, outcome: Outcome)
    ensures
        rule.noted(key, outcome).pattern == rule.pattern,
        rule.noted(key, outcome).template == rule.template,
        forall|k: Seq<char>| #[trigger]
            rule.cache.contains_key(k) ==> rule.noted(key, outcome).cache.contains_key(k)
                && rule.noted(key, outcome).cache[k] == rule.cache[k],
        rule.well_formed() ==> rule.noted(key, outcome).well_formed(),
{
}

/// Keys do not interfere: taking note of an outcome for one key changes the
/// answer to no match that substitutes to another key.
pub proof fn lemma_other_keys_are_unaffected(
    rule: CommandView,
    key: Seq<char>,
    outcome: Outcome,
    groups: Seq<Option<Seq<char>>>,
)
    requires
        substituted(rule.template, groups) != key,
    ensures
        response(rule.template, rule.noted(key, outcome).cache, Some(groups)) == response(
            rule.template,
            rule.cache,
            Some(groups),
        ),
{
}

/// Two executions with different keys leave two entries, each with its own
/// output.
pub proof fn lemma_distinct_keys_keep_their_outputs(
    rule: CommandView,
    first: Seq<char>,
    first_outcome: Outcome,
    second: Seq<char>,
    second_outcome: Outcome,
)
    requires
        first != second,
        directive(first) is Run,
        directive(second) is Run,
        !rule.cache.contains_key(first),
        !rule.cache.contains_key(second),
        evaluated(first_outcome) is Ok,
        evaluated(second_outcome) is Ok,
    ensures
        ({
            let after = rule.noted(first, first_outcome).noted(second, second_outcome);
            &&& after.cache.contains_key(first)
            &&& after.cache.contains_key(second)
            &&& after.cache[first] == evaluated(first_outcome)->Ok_0
            &&& after.cache[second] == evaluated(second_outcome)->Ok_0
        }),
{
}

/// Different captures, different keys: for a rule with one capture group
/// whose placeholder stands in the template, matches that capture
/// different texts substitute to different keys, so that neither is
/// answered from what is remembered for the other.
pub proof fn lemma_distinct_captures_have_distinct_keys(
    template: Seq<char>,
    first: Seq<Option<Seq<char>>>,
    second: Seq<Option<Seq<char>>>,
)
    requires
        occurs(template, token(1)),
        first.len() == 2,
        second.len() == 2,
        first[1] is Some,
        second[1] is Some,
        first[1] != second[1],
    ensures
        substituted(template, first) != substituted(template, second),
{
    reveal_with_fuel(substituted_upto, 3);
    lemma_replaced_tells_apart(template, token(1), first[1]->0, second[1]->0);
}

/// A fault leaves no trace: an outcome that is a fault is reported as that
/// fault and leaves the rule exactly as it was.
pub proof fn lemma_fault_leaves_rule_unchanged(rule: CommandView, key: Seq<char>, outcome: Outcome)
    requires
        evaluated(outcome) is Err,
    ensures
        rule.noted(key, outcome) == rule,
        rule.settled(key, outcome) == Err::<Seq<char>, Fault>(evaluated(outcome)->Err_0),
{
}

} // verus!
