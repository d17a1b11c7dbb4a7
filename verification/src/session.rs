//! The session adapter: one per accepted connection. It turns the events of
//! the transport channel into calls of the command engine and says what is
//! to be written, recorded and run.
//!
//! A session does no work outside itself. [`Session::handle`] takes an
//! event and returns the actions that the caller has to perform; the result
//! of an [`Action::Execute`] comes back as [`Event::Executed`].

use crate::command::{evaluated, Fault, Outcome, Reply, ReplyView};
use crate::service::{lemma_first_match_is_unique, Service, ServiceView};
use crate::text::{decode, lossy_text};
use vstd::prelude::*;
use vstd::string::StrSliceExecFns;
use vstd::utf8::encode_utf8;

verus! {

/// Where a session stands in the life of its channel.
#[derive(Clone, Copy, Debug, PartialEq, Eq)]
pub enum Mode {
    /// Accepted; no channel yet.
    Fresh,
    /// The channel is open and nothing has been asked for.
    Open,
    /// A single command is being served.
    Exec,
    /// Interactive: lines are read and answered in turn.
    Shell,
    /// The channel is gone.
    Closed,
}

/// The direction of recorded traffic, as seen from the service.
#[derive(Clone, Copy, Debug, PartialEq, Eq)]
pub enum Direction {
    Inbound,
    Outbound,
}

/// What the transport, or the sandbox, reports to a session.
#[derive(Debug, PartialEq, Eq)]
pub enum Event {
    ChannelOpen,
    ExecRequest(String),
    ShellRequest,
    PtyRequest,
    Data(Vec<u8>),
    /// The execution that the session asked for has come back.
    Executed(Outcome),
    ChannelClose,
    Disconnect,
}

/// What a session asks its caller to do.
#[derive(Debug, PartialEq, Eq)]
pub enum Action {
    /// Hand the bytes to the recorder.
    Record(Direction, Vec<u8>),
    /// Write the bytes to the channel.
    Write(Vec<u8>),
    /// Run `body` in the sandbox `target` and report back with
    /// [`Event::Executed`].
    Execute { target: String, body: String },
    /// The single command is served: signal completion and let the channel
    /// close.
    Done,
}

/// An [`Action`] as sequences.
pub enum ActionView {
    Record(Direction, Seq<u8>),
    Write(Seq<u8>),
    Execute { target: Seq<char>, body: Seq<char> },
    Done,
}

impl View for Action {
    type V = ActionView;

    open spec fn view(&self) -> ActionView {
        match self {
            Action::Record(direction, bytes) => ActionView::Record(*direction, bytes@),
            Action::Write(bytes) => ActionView::Write(bytes@),
            Action::Execute { target, body } => ActionView::Execute {
                target: target@,
                body: body@,
            },
            Action::Done => ActionView::Done,
        }
    }
}

/// A list of actions as the contracts see it.
pub open spec fn views(actions: Seq<Action>) -> Seq<ActionView> {
    actions.map_values(|action: Action| action@)
}

/// The execution that a session waits for: the rule that asked for it and
/// the cache key of its output.
pub struct Pending {
    pub rule: int,
    pub key: Seq<char>,
}

/// A session as the contracts see it.
pub struct SessionView {
    pub id: Seq<char>,
    pub remote: Seq<char>,
    pub mode: Mode,
    /// The bytes received and not yet served.
    pub queue: Seq<u8>,
    pub waiting: Option<Pending>,
}

/// What serving input leads to: actions, and the execution to wait for.
pub struct Served {
    pub actions: Seq<ActionView>,
    pub waiting: Option<Pending>,
}

/// The actions that send `text`: it is written to the channel and handed
/// to the recorder.
pub open spec fn delivery(text: Seq<char>) -> Seq<ActionView> {
    seq![
        ActionView::Write(encode_utf8(text)),
        ActionView::Record(Direction::Outbound, encode_utf8(text)),
    ]
}

/// Serving one line: the first rule that matches answers it. Output is
/// delivered; where no rule matches the fallback is delivered, and where
/// the directive is malformed the diagnostic; an execution is asked for
/// and waited for.
pub open spec fn served(service: ServiceView, line: Seq<char>) -> Served {
    if service.no_match(line) {
        Served { actions: delivery(service.settings.fallback), waiting: None }
    } else {
        let rule = choose|i: int| service.first_match(line, i);
        match service.rules[rule].answer(line)->0 {
            ReplyView::Output(text) => Served { actions: delivery(text), waiting: None },
            ReplyView::Fault(_) => Served {
                actions: delivery(service.settings.diagnostic),
                waiting: None,
            },
            ReplyView::Execute(execution) => Served {
                actions: seq![
                    ActionView::Execute { target: execution.target, body: execution.body },
                ],
                waiting: Some(Pending { rule, key: execution.key }),
            },
        }
    }
}

/// The index of the first `byte` in `bytes`: `bytes.len()` where there is
/// none.
pub open spec fn first_byte(bytes: Seq<u8>, byte: u8) -> int
    decreases bytes.len(),
{
    if bytes.len() == 0 || bytes[0] == byte {
        0
    } else {
        1 + first_byte(bytes.skip(1), byte)
    }
}

/// What is left of a queue, and what came of the rest.
pub struct Drained {
    pub actions: Seq<ActionView>,
    pub queue: Seq<u8>,
    pub waiting: Option<Pending>,
}

/// Serving the complete lines of `queue` in turn, up to the first that has
/// to wait for an execution. Each line is recorded, decoded and served; the
/// terminator belongs to no line.
pub open spec fn drained(service: ServiceView, queue: Seq<u8>) -> Drained
    decreases queue.len(),
{
    let cut = first_byte(queue, service.settings.terminator);
    if cut >= queue.len() || cut < 0 {
        Drained { actions: Seq::empty(), queue, waiting: None }
    } else {
        let line = queue.take(cut);
        let rest = queue.skip(cut + 1);
        let one = served(service, lossy_text(line));
        let head = seq![ActionView::Record(Direction::Inbound, line)] + one.actions;
        if one.waiting is Some {
            Drained { actions: head, queue: rest, waiting: one.waiting }
        } else {
            let more = drained(service, rest);
            Drained { actions: head + more.actions, queue: more.queue, waiting: more.waiting }
        }
    }
}

/// What a step leads to.
pub struct Step {
    pub session: SessionView,
    pub service: ServiceView,
    pub actions: Seq<ActionView>,
}

/// The session once its channel is gone.
pub open spec fn closed(session: SessionView) -> SessionView {
    SessionView { mode: Mode::Closed, queue: Seq::empty(), waiting: None, ..session }
}

/// The step for a single command: it is recorded and served, and unless an
/// execution has to be waited for the session is done.
pub open spec fn exec_step(session: SessionView, service: ServiceView, command: Seq<char>) -> Step {
    let one = served(service, command);
    let head = seq![ActionView::Record(Direction::Inbound, encode_utf8(command))] + one.actions;
    if one.waiting is Some {
        Step {
            session: SessionView { mode: Mode::Exec, waiting: one.waiting, ..session },
            service,
            actions: head,
        }
    } else {
        Step { session: closed(session), service, actions: head.push(ActionView::Done) }
    }
}

/// The step for bytes that arrive in an interactive session: they join the
/// queue, and unless an execution is being waited for the queue is served.
pub open spec fn data_step(session: SessionView, service: ServiceView, bytes: Seq<u8>) -> Step {
    let queue = session.queue + bytes;
    if session.waiting is Some {
        Step { session: SessionView { queue, ..session }, service, actions: Seq::empty() }
    } else {
        let out = drained(service, queue);
        Step {
            session: SessionView { queue: out.queue, waiting: out.waiting, ..session },
            service,
            actions: out.actions,
        }
    }
}

/// The step for an execution that has come back: the rule takes note of
/// it, its output, or the diagnostic where it failed, is delivered, and the
/// session goes on: a single command is done, an interactive session
/// serves what has queued up meanwhile.
pub open spec fn executed_step(
    session: SessionView,
    service: ServiceView,
    pending: Pending,
    outcome: Outcome,
) -> Step {
    let known = 0 <= pending.rule < service.rules.len();
    let after = if known {
        service.noted(pending.rule, pending.key, outcome)
    } else {
        service
    };
    let text = if known && service.rules[pending.rule].settled(pending.key, outcome) is Ok {
        service.rules[pending.rule].settled(pending.key, outcome)->Ok_0
    } else {
        service.settings.diagnostic
    };
    if session.mode is Shell {
        let out = drained(after, session.queue);
        Step {
            session: SessionView { queue: out.queue, waiting: out.waiting, ..session },
            service: after,
            actions: delivery(text) + out.actions,
        }
    } else {
        Step {
            session: closed(session),
            service: after,
            actions: delivery(text).push(ActionView::Done),
        }
    }
}

/// The transition of a session: what `event` leads to, for the session,
/// for the service whose rules it shares, and in actions. An event that
/// does not fit the state of the session is ignored.
pub open spec fn step(session: SessionView, service: ServiceView, event: Event) -> Step {
    let ignored = Step { session, service, actions: Seq::empty() };
    match event {
        Event::ChannelOpen => if session.mode is Fresh {
            Step { session: SessionView { mode: Mode::Open, ..session }, ..ignored }
        } else {
            ignored
        },
        Event::ExecRequest(command) => if session.mode is Open {
            exec_step(session, service, command@)
        } else {
            ignored
        },
        Event::ShellRequest | Event::PtyRequest => if session.mode is Open {
            Step { session: SessionView { mode: Mode::Shell, ..session }, ..ignored }
        } else {
            ignored
        },
        Event::Data(bytes) => if session.mode is Shell {
            data_step(session, service, bytes@)
        } else {
            ignored
        },
        Event::Executed(outcome) => if session.mode !is Closed && session.waiting is Some {
            executed_step(session, service, session.waiting->0, outcome)
        } else {
            ignored
        },
        Event::ChannelClose | Event::Disconnect => Step { session: closed(session), ..ignored },
    }
}

/// One connection: who it is, where it stands, what it has received and
/// not yet served, and the execution it waits for.
pub struct Session {
    id: String,
    remote: String,
    mode: Mode,
    queue: Vec<u8>,
    waiting: Option<(usize, String)>,
}

impl View for Session {
    type V = SessionView;

    closed spec fn view(&self) -> SessionView {
        SessionView {
            id: self.id@,
            remote: self.remote@,
            mode: self.mode,
            queue: self.queue@,
            waiting: match self.waiting {
                Some((rule, key)) => Some(Pending { rule: rule as int, key: key@ }),
                None => None,
            },
        }
    }
}

/// Appends the actions that send `text`.
fn deliver(text: &str, actions: &mut Vec<Action>)
    ensures
        views(final(actions)@) == views(old(actions)@) + delivery(text@),
{
    actions.push(Action::Write(text.as_bytes_vec()));
    actions.push(Action::Record(Direction::Outbound, text.as_bytes_vec()));
    assert(views(actions@) =~= views(old(actions)@) + delivery(text@));
}

/// Serves one line: appends the actions and returns the execution to wait
/// for.
fn serve(service: &Service, line: &str, actions: &mut Vec<Action>) -> (waiting: Option<
    (usize, String),
>)
    ensures
        views(final(actions)@) == views(old(actions)@) + served(service@, line@).actions,
        match waiting {
            Some((rule, key)) => served(service@, line@).waiting == Some(
                Pending { rule: rule as int, key: key@ },
            ),
            None => served(service@, line@).waiting is None,
        },
{
    match service.dispatch(line) {
        None => {
            deliver(service.settings().fallback.as_str(), actions);
            None
        },
        Some((rule, reply)) => {
            proof {
                let first = choose|i: int| service@.first_match(line@, i);
                lemma_first_match_is_unique(service@, line@, first, rule as int);
            }
            match reply {
                Reply::Output(text) => {
                    deliver(text.as_str(), actions);
                    None
                },
                Reply::Fault(_) => {
                    deliver(service.settings().diagnostic.as_str(), actions);
                    None
                },
                Reply::Execute(execution) => {
                    actions.push(
                        Action::Execute { target: execution.target, body: execution.body },
                    );
                    assert(views(actions@) =~= views(old(actions)@) + served(
                        service@,
                        line@,
                    ).actions);
                    Some((rule, execution.key))
                },
            }
        },
    }
}

/// Finds the first `byte` in `bytes` at or after index `from`.
fn find_byte(bytes: &Vec<u8>, from: usize, byte: u8) -> (i: usize)
    requires
        from <= bytes.len(),
    ensures
        i == from + first_byte(bytes@.skip(from as int), byte),
        from <= i <= bytes.len(),
{
    let mut i: usize = from;
    while i < bytes.len() && bytes[i] != byte
        invariant
            from <= i <= bytes.len(),
            from + first_byte(bytes@.skip(from as int), byte) == i + first_byte(
                bytes@.skip(i as int),
                byte,
            ),
        decreases bytes.len() - i,
    {
        assert(bytes@.skip(i as int).skip(1) =~= bytes@.skip(i + 1));
        i += 1;
    }
    i
}

/// The bytes of `bytes` from index `from` up to, not including, `to`.
fn cut_out(bytes: &Vec<u8>, from: usize, to: usize) -> (v: Vec<u8>)
    requires
        from <= to <= bytes.len(),
    ensures
        v@ == bytes@.subrange(from as int, to as int),
{
    let mut v: Vec<u8> = Vec::new();
    let mut i: usize = from;
    while i < to
        invariant
            from <= i <= to <= bytes.len(),
            v@ == bytes@.subrange(from as int, i as int),
        decreases to - i,
    {
        v.push(bytes[i]);
        i += 1;
    }
    v
}

impl Session {
    /// The session for a connection that has just been accepted.
    pub fn new(id: String, remote: String) -> (session: Session)
        ensures
            session@ == (SessionView {
                id: id@,
                remote: remote@,
                mode: Mode::Fresh,
                queue: Seq::empty(),
                waiting: None,
            }),
    {
        Session { id, remote, mode: Mode::Fresh, queue: Vec::new(), waiting: None }
    }

    /// The identifier of the session.
    pub fn id(&self) -> (s: &str)
        ensures
            s@ == self@.id,
    {
        self.id.as_str()
    }

    /// The address of the peer.
    pub fn remote(&self) -> (s: &str)
        ensures
            s@ == self@.remote,
    {
        self.remote.as_str()
    }

    /// Where the session stands.
    pub fn mode(&self) -> (mode: Mode)
        ensures
            mode == self@.mode,
    {
        self.mode
    }

    /// Whether the session waits for an execution to come back.
    pub fn is_waiting(&self) -> (b: bool)
        ensures
            b == self@.waiting is Some,
    {
        self.waiting.is_some()
    }

    /// Serves the complete lines of the queue, up to the first that has to
    /// wait for an execution, and appends what is to be done.
    fn drain(&mut self, service: &Service, actions: &mut Vec<Action>)
        requires
            old(self)@.waiting is None,
        ensures
            views(final(actions)@) == views(old(actions)@) + drained(
                service@,
                old(self)@.queue,
            ).actions,
            final(self)@ == (SessionView {
                queue: drained(service@, old(self)@.queue).queue,
                waiting: drained(service@, old(self)@.queue).waiting,
                ..old(self)@
            }),
    {
        let terminator = service.settings().terminator;
        let mut done: Vec<Action> = Vec::new();
        let mut waiting: Option<(usize, String)> = None;
        let mut pos: usize = 0;
        let ghost whole = drained(service@, self.queue@);
        assert(self.queue@.skip(0) =~= self.queue@);
        assert(views(done@) + whole.actions =~= whole.actions);
        loop
            invariant_except_break
                waiting is None,
                whole.actions == views(done@) + drained(
                    service@,
                    self.queue@.skip(pos as int),
                ).actions,
                whole.queue == drained(service@, self.queue@.skip(pos as int)).queue,
                whole.waiting == drained(service@, self.queue@.skip(pos as int)).waiting,
            invariant
                pos <= self.queue.len(),
                terminator == service@.settings.terminator,
            ensures
                whole.actions == views(done@),
                whole.queue == self.queue@.skip(pos as int),
                match waiting {
                    Some((rule, key)) => whole.waiting == Some(
                        Pending { rule: rule as int, key: key@ },
                    ),
                    None => whole.waiting is None,
                },
            decreases self.queue.len() - pos,
        {
            let ghost rest = self.queue@.skip(pos as int);
            let ghost sofar = views(done@);
            let cut = find_byte(&self.queue, pos, terminator);
            if cut >= self.queue.len() {
                assert(sofar + Seq::<ActionView>::empty() =~= sofar);
                break ;
            }
            let line = cut_out(&self.queue, pos, cut);
            let text = decode(&line);
            proof {
                assert(line@ =~= rest.take(cut - pos));
                assert(rest.skip(cut - pos + 1) =~= self.queue@.skip(cut + 1));
                let one = served(service@, text@);
                let head = seq![ActionView::Record(Direction::Inbound, line@)] + one.actions;
                assert(sofar.push(ActionView::Record(Direction::Inbound, line@)) + one.actions
                    =~= sofar + head);
                if one.waiting is None {
                    let more = drained(service@, self.queue@.skip(cut + 1));
                    assert(sofar + (head + more.actions) =~= (sofar + head) + more.actions);
                }
            }
            done.push(Action::Record(Direction::Inbound, line));
            assert(views(done@) =~= sofar.push(ActionView::Record(Direction::Inbound, line@)));
            let next = serve(service, text.as_str(), &mut done);
            pos = cut + 1;
            if next.is_some() {
                waiting = next;
                break ;
            }
        }
        let left = cut_out(&self.queue, pos, self.queue.len());
        assert(left@ =~= self.queue@.skip(pos as int));
        assert(views(actions@ + done@) =~= views(actions@) + views(done@));
        actions.append(&mut done);
        self.queue = left;
        self.waiting = waiting;
    }

    /// Takes `event` and returns what is to be done about it, in order.
    /// The rules of `service` are consulted, and changed only where an
    /// execution that has come back is remembered.
    pub fn handle(&mut self, service: &mut Service, event: Event) -> (actions: Vec<Action>)
        ensures
            final(self)@ == step(old(self)@, old(service)@, event).session,
            final(service)@ == step(old(self)@, old(service)@, event).service,
            views(actions@) == step(old(self)@, old(service)@, event).actions,
            old(self)@.well_formed() ==> final(self)@.well_formed(),
            old(service)@.well_formed() ==> final(service)@.well_formed(),
    {
        let mut actions: Vec<Action> = Vec::new();
        assert(views(actions@) =~= Seq::empty());
        proof {
            if self@.well_formed() {
                lemma_steps_are_sequential(self@, service@, event);
            }
        }
        match event {
            Event::ChannelOpen => {
                match self.mode {
                    Mode::Fresh => {
                        self.mode = Mode::Open;
                    },
                    _ => {},
                }
            },
            Event::ExecRequest(command) => {
                match self.mode {
                    Mode::Open => {
                        actions.push(
                            Action::Record(Direction::Inbound, command.as_str().as_bytes_vec()),
                        );
                        assert(views(actions@) =~= seq![
                            ActionView::Record(Direction::Inbound, encode_utf8(command@)),
                        ]);
                        let next = serve(service, command.as_str(), &mut actions);
                        if next.is_some() {
                            self.mode = Mode::Exec;
                            self.waiting = next;
                        } else {
                            actions.push(Action::Done);
                            self.close();
                        }
                        assert(views(actions@) =~= exec_step(
                            old(self)@,
                            old(service)@,
                            command@,
                        ).actions);
                    },
                    _ => {},
                }
            },
            Event::ShellRequest | Event::PtyRequest => {
                match self.mode {
                    Mode::Open => {
                        self.mode = Mode::Shell;
                    },
                    _ => {},
                }
            },
            Event::Data(bytes) => {
                match self.mode {
                    Mode::Shell => {
                        let mut bytes = bytes;
                        self.queue.append(&mut bytes);
                        if self.waiting.is_none() {
                            self.drain(service, &mut actions);
                        }
                    },
                    _ => {},
                }
            },
            Event::Executed(outcome) => {
                let closed = match self.mode {
                    Mode::Closed => true,
                    _ => false,
                };
                if !closed && self.waiting.is_some() {
                    let (rule, key) = self.waiting.take().unwrap();
                    let settled = if rule < service.len() {
                        service.complete(rule, key.as_str(), &outcome)
                    } else {
                        Err(Fault::Unreachable)
                    };
                    match settled {
                        Ok(text) => {
                            deliver(text.as_str(), &mut actions);
                        },
                        Err(_) => {
                            deliver(service.settings().diagnostic.as_str(), &mut actions);
                        },
                    }
                    match self.mode {
                        Mode::Shell => {
                            self.drain(service, &mut actions);
                        },
                        _ => {
                            actions.push(Action::Done);
                            self.close();
                        },
                    }
                    assert(views(actions@) =~= executed_step(
                        old(self)@,
                        old(service)@,
                        old(self)@.waiting->0,
                        outcome,
                    ).actions);
                }
            },
            Event::ChannelClose | Event::Disconnect => {
                self.close();
            },
        }
        actions
    }

    /// Forgets what is queued and waited for: the channel is gone.
    fn close(&mut self)
        ensures
            final(self)@ == closed(old(self)@),
    {
        self.mode = Mode::Closed;
        self.queue = Vec::new();
        self.waiting = None;
    }
}

impl SessionView {
    /// Only an interactive session queues bytes, only a session that serves
    /// something waits, and a single command that is being served is
    /// always waited for.
    pub open spec fn well_formed(self) -> bool {
        match self.mode {
            Mode::Shell => true,
            Mode::Exec => self.queue.len() == 0 && self.waiting is Some,
            _ => self.queue.len() == 0 && self.waiting is None,
        }
    }
}

/// Whether `actions` are in the order that a session keeps, `waiting`
/// telling whether it waits for an execution afterwards: an execution is
/// asked for last of all and only to be waited for, and whatever is written
/// to the channel is handed to the recorder next.
pub open spec fn in_order(actions: Seq<ActionView>, waiting: bool) -> bool {
    &&& forall|i: int|
        0 <= i < actions.len() && #[trigger] actions[i] is Execute ==> i == actions.len() - 1
            && waiting
    &&& forall|i: int|
        0 <= i < actions.len() && #[trigger] actions[i] is Write ==> i + 1 < actions.len()
            && actions[i + 1] == ActionView::Record(Direction::Outbound, actions[i]->Write_0)
}

/// Whether `actions` end by asking for an execution.
pub open spec fn asks(actions: Seq<ActionView>) -> bool {
    actions.len() > 0 && actions.last() is Execute
}

/// Actions in order, followed by actions in order, are in order.
pub proof fn lemma_in_order_concat(first: Seq<ActionView>, second: Seq<ActionView>, waiting: bool)
    requires
        in_order(first, false),
        in_order(second, waiting),
    ensures
        in_order(first + second, waiting),
        asks(second) ==> asks(first + second),
        !asks(first) && !asks(second) ==> !asks(first + second),
{
    let both = first + second;
    assert forall|i: int| 0 <= i < both.len() && #[trigger] both[i] is Execute implies i
        == both.len() - 1 && waiting by {
        if i < first.len() {
            assert(first[i] is Execute);
        } else {
            assert(second[i - first.len()] is Execute);
        }
    }
    assert forall|i: int| 0 <= i < both.len() && #[trigger] both[i] is Write implies i + 1
        < both.len() && both[i + 1] == ActionView::Record(
        Direction::Outbound,
        both[i]->Write_0,
    ) by {
        if i < first.len() {
            assert(first[i] is Write);
        } else {
            assert(second[i - first.len()] is Write);
        }
    }
    if second.len() > 0 {
        assert(both.last() == second.last());
    } else {
        assert(both =~= first);
    }
}

/// Serving a line keeps the order, and waits exactly where it asks for an
/// execution.
pub proof fn lemma_served_in_order(service: ServiceView, line: Seq<char>)
    ensures
        in_order(served(service, line).actions, served(service, line).waiting is Some),
        served(service, line).waiting is Some <==> asks(served(service, line).actions),
{
}

/// Serving a queue keeps the order, and waits exactly where it asks for an
/// execution.
pub proof fn lemma_drained_in_order(service: ServiceView, queue: Seq<u8>)
    ensures
        in_order(drained(service, queue).actions, drained(service, queue).waiting is Some),
        drained(service, queue).waiting is Some <==> asks(drained(service, queue).actions),
    decreases queue.len(),
{
    let cut = first_byte(queue, service.settings.terminator);
    if 0 <= cut < queue.len() {
        let line = queue.take(cut);
        let one = served(service, lossy_text(line));
        let record = seq![ActionView::Record(Direction::Inbound, line)];
        lemma_served_in_order(service, lossy_text(line));
        lemma_in_order_concat(record, one.actions, one.waiting is Some);
        if one.waiting is None {
            let more = drained(service, queue.skip(cut + 1));
            lemma_drained_in_order(service, queue.skip(cut + 1));
            lemma_in_order_concat(record + one.actions, more.actions, more.waiting is Some);
        }
    }
}

/// Dispatch within a session is strictly sequential, and nothing is sent
/// unrecorded. Whatever the event, the actions of a step are in order: an
/// execution is asked for only as the last action and is then waited for,
/// and every write is followed by its record. A session waits after a step
/// only for the execution that the step asked for, or for the one it was
/// waiting for already; while that one is in flight nothing is done until
/// it comes back. The session stays well formed.
pub proof fn lemma_steps_are_sequential(session: SessionView, service: ServiceView, event: Event)
    requires
        session.well_formed(),
    ensures
        step(session, service, event).session.well_formed(),
        in_order(
            step(session, service, event).actions,
            step(session, service, event).session.waiting is Some,
        ),
        session.waiting is Some && !(event is Executed) ==> step(
            session,
            service,
            event,
        ).actions.len() == 0,
        session.waiting is None || event is Executed ==> (step(
            session,
            service,
            event,
        ).session.waiting is Some <==> asks(step(session, service, event).actions)),
{
    let out = step(session, service, event);
    match event {
        Event::ExecRequest(command) => {
            if session.mode is Open {
                let one = served(service, command@);
                let record = seq![ActionView::Record(Direction::Inbound, encode_utf8(command@))];
                lemma_served_in_order(service, command@);
                lemma_in_order_concat(record, one.actions, one.waiting is Some);
                if one.waiting is None {
                    lemma_in_order_concat(record + one.actions, seq![ActionView::Done], false);
                    assert((record + one.actions).push(ActionView::Done) =~= (record + one.actions)
                        + seq![ActionView::Done]);
                }
            }
        },
        Event::Data(bytes) => {
            if session.mode is Shell && session.waiting is None {
                lemma_drained_in_order(service, session.queue + bytes@);
            }
        },
        Event::Executed(outcome) => {
            if session.mode !is Closed && session.waiting is Some {
                let pending = session.waiting->0;
                let done = executed_step(session, service, pending, outcome);
                let known = 0 <= pending.rule < service.rules.len();
                let text = if known && service.rules[pending.rule].settled(pending.key, outcome)
                    is Ok {
                    service.rules[pending.rule].settled(pending.key, outcome)->Ok_0
                } else {
                    service.settings.diagnostic
                };
                if session.mode is Shell {
                    let more = drained(done.service, session.queue);
                    lemma_drained_in_order(done.service, session.queue);
                    lemma_in_order_concat(delivery(text), more.actions, more.waiting is Some);
                } else {
                    lemma_in_order_concat(delivery(text), seq![ActionView::Done], false);
                    assert(delivery(text).push(ActionView::Done) =~= delivery(text)
                        + seq![ActionView::Done]);
                }
            }
        },
        _ => {},
    }
}

/// A session whose channel is gone does nothing more.
pub proof fn lemma_closed_is_final(session: SessionView, service: ServiceView, event: Event)
    requires
        session.well_formed(),
        session.mode is Closed,
    ensures
        step(session, service, event) == (Step { session, service, actions: Seq::empty() }),
{
    assert(closed(session).queue =~= session.queue);
}

/// Sessions touch the rules they share only to remember the output of an
/// execution that succeeded: every other event, a failed execution and
/// the loss of the transport among them, leaves the service exactly as it
/// was.
pub proof fn lemma_only_success_changes_service(
    session: SessionView,
    service: ServiceView,
    event: Event,
)
    requires
        !(event is Executed) || evaluated(event->Executed_0) is Err,
    ensures
        step(session, service, event).service == service,
{
    if event is Executed && session.mode !is Closed && session.waiting is Some {
        let pending = session.waiting->0;
        if 0 <= pending.rule < service.rules.len() {
            assert(service.noted(pending.rule, pending.key, event->Executed_0).rules
                =~= service.rules);
        }
    }
}

/// Sessions are isolated from one another's faults: after an execution
/// has failed in one session, or its transport was lost, every other
/// session of the same service goes on exactly as it would have done.
pub proof fn lemma_fault_does_not_reach_other_sessions(
    faulty: SessionView,
    fault: Event,
    other: SessionView,
    service: ServiceView,
    event: Event,
)
    requires
        fault is Disconnect || fault is ChannelClose || (fault is Executed && evaluated(
            fault->Executed_0,
        ) is Err),
    ensures
        step(other, step(faulty, service, fault).service, event) == step(other, service, event),
{
    lemma_only_success_changes_service(faulty, service, fault);
}

} // verus!
