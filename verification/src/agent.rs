//! The agent: a node that registers with the master, waits for tasks,
//! carries them out and reports.
//!
//! What the agent does is a function from its state and what happened to its
//! next state and what to do. The sockets and the system belong to the
//! caller: it sends, listens and carries out as it is told, and hands back
//! what came of it.

pub mod task;

use vstd::prelude::*;
use vstd::slice::*;
use vstd::string::*;
use vstd::utf8::*;

use crate::agent::task::{
    executed, next_action, task_of_bytes, Action, ActionView, Outcome, OutcomeView, Task, TaskView,
};
use crate::errors::{error_text, plain, Error, ErrorView};
use crate::key::{key_of_text, Key, Pair, KEY};
use crate::protocol::{request_bytes, Request, RequestView};
use crate::text::{decimal, push_decimal, same_bytes};
use crate::Port;

verus! {

/// The file that holds the agent's key pair.
pub const KEY_FILE: &'static str = "agent.key";

/// The file that holds the agent's configuration.
pub const CONFIG_FILE: &'static str = "agent.toml";

/// What the agent is configured with.
#[derive(Debug, PartialEq, Eq)]
pub struct Config {
    /// The name that the agent declares.
    pub id: String,
    pub master: Master,
}

/// What the agent knows of its master.
#[derive(Debug, PartialEq, Eq)]
pub struct Master {
    pub port: Port,
    pub host: String,
    /// The master's public key, as base64 text.
    pub finger: String,
}

/// The address of a port of a host.
pub open spec fn address(host: Seq<char>, port: int) -> Seq<char> {
    host + ":"@ + decimal(port as nat)
}

/// The address to connect to.
pub open spec fn url(host: Seq<char>, port: int) -> Seq<char> {
    "tcp://"@ + address(host, port)
}

impl Master {
    /// The master's public key.
    pub fn finger(&self) -> (r: Result<KEY, Error>)
        ensures
            match r {
                Ok(key) => key_of_text(self.finger@) == Ok::<Seq<u8>, ErrorView>(key@),
                Err(e) => key_of_text(self.finger@) == Err::<Seq<u8>, ErrorView>(e@),
            },
    {
        match Key::from_str(self.finger.as_str()) {
            Ok(key) => Ok(key.0),
            Err(e) => Err(e),
        }
    }

    /// The master's publish channel, as host and port.
    pub fn to_string(&self) -> (r: String)
        ensures
            r@ == address(self.host@, self.port.publisher as int),
    {
        let mut out = self.host.clone();
        out.append(":");
        push_decimal(&mut out, self.port.publisher() as u64);
        out
    }

    /// The address of the master's publish channel.
    pub fn publisher(&self) -> (r: String)
        ensures
            r@ == url(self.host@, self.port.publisher as int),
    {
        let mut out = "tcp://".to_owned();
        out.append(self.to_string().as_str());
        out
    }

    /// The address of the master's reply channel.
    pub fn reporter(&self) -> (r: String)
        ensures
            r@ == url(self.host@, self.port.reporter as int),
    {
        let mut out = "tcp://".to_owned();
        out.append(self.host.as_str());
        out.append(":");
        push_decimal(&mut out, self.port.reporter() as u64);
        assert(out@ =~= url(self.host@, self.port.reporter as int));
        out
    }
}

/// Where an agent stands.
#[derive(Debug, PartialEq, Eq)]
pub enum State {
    /// Nothing is done yet.
    Idle,
    /// The registration is sent; the answer is waited for.
    Registering,
    /// A task is waited for.
    Listening,
    /// A task is being carried out: the system has done what `outcomes`
    /// say, and the next action is under way.
    Working { task: Task, outcomes: Vec<Outcome> },
    /// A report is sent; the answer is waited for.
    Reporting,
    /// The agent has given up.
    Stopped,
}

/// What happened.
#[derive(Debug, PartialEq, Eq)]
pub enum Event {
    /// The agent is started.
    Started,
    /// The master answered on the request channel.
    Answered(Vec<u8>),
    /// A message in two parts came in on the subscribe channel.
    Delivered { topic: Vec<u8>, body: Vec<u8> },
    /// The system did what it was asked to.
    Done(Outcome),
}

/// What to do next.
#[derive(Debug, PartialEq, Eq)]
pub enum Next {
    /// Send these bytes on the request channel and wait for the answer.
    Send(Vec<u8>),
    /// Wait for a message on the subscribe channel.
    Listen,
    /// Have the system do this.
    Perform(Action),
    /// Give up, for this reason.
    Stop(Error),
}

/// A state as a plain value.
pub enum StateView {
    Idle,
    Registering,
    Listening,
    Working { task: TaskView, outcomes: Seq<OutcomeView> },
    Reporting,
    Stopped,
}

/// An event as a plain value.
pub enum EventView {
    Started,
    Answered(Seq<u8>),
    Delivered { topic: Seq<u8>, body: Seq<u8> },
    Done(OutcomeView),
}

/// What to do next, as a plain value.
pub enum NextView {
    Send(Seq<u8>),
    Listen,
    Perform(ActionView),
    Stop(ErrorView),
}

impl View for State {
    type V = StateView;

    open spec fn view(&self) -> StateView {
        match self {
            State::Idle => StateView::Idle,
            State::Registering => StateView::Registering,
            State::Listening => StateView::Listening,
            State::Working { task, outcomes } => StateView::Working {
                task: task@,
                outcomes: outcomes.deep_view(),
            },
            State::Reporting => StateView::Reporting,
            State::Stopped => StateView::Stopped,
        }
    }
}

impl View for Event {
    type V = EventView;

    open spec fn view(&self) -> EventView {
        match self {
            Event::Started => EventView::Started,
            Event::Answered(bytes) => EventView::Answered(bytes@),
            Event::Delivered { topic, body } => EventView::Delivered { topic: topic@, body: body@ },
            Event::Done(outcome) => EventView::Done(outcome@),
        }
    }
}

impl View for Next {
    type V = NextView;

    open spec fn view(&self) -> NextView {
        match self {
            Next::Send(bytes) => NextView::Send(bytes@),
            Next::Listen => NextView::Listen,
            Next::Perform(action) => NextView::Perform(action@),
            Next::Stop(e) => NextView::Stop(e@),
        }
    }
}

/// What is reported of a task: what carrying it out came to, or the failure
/// in words.
pub open spec fn result_text(r: Result<Seq<char>, ErrorView>) -> Seq<char> {
    match r {
        Ok(report) => report,
        Err(e) => error_text(e),
    }
}

/// Where a task stands after the outcomes so far: the next action, or the
/// report once a payload has failed or all are done.
pub open spec fn advanced(id: Seq<char>, task: TaskView, outcomes: Seq<OutcomeView>) -> (
    StateView,
    NextView,
) {
    match next_action(task.payload, outcomes) {
        Some(action) => (StateView::Working { task, outcomes }, NextView::Perform(action)),
        None => (
            StateView::Reporting,
            NextView::Send(
                request_bytes(
                    RequestView::Report {
                        host: id,
                        task: task.id,
                        result: result_text(executed(task.payload, outcomes)),
                    },
                ),
            ),
        ),
    }
}

/// What an answer of the master leads to: any text will do.
pub open spec fn answered(ack: Seq<u8>) -> (StateView, NextView) {
    if valid_utf8(ack) {
        (StateView::Listening, NextView::Listen)
    } else {
        (StateView::Stopped, NextView::Stop(ErrorView::Codec))
    }
}

/// The agent's next state and what it does, for the agent named `id` with
/// the public key `public`. It registers, then takes one task after the
/// other: each is carried out payload by payload and reported, whatever it
/// came to. A message under another topic than the agent's name is passed
/// over. The agent gives up on a message or an answer that it cannot read,
/// and on what it does not wait for.
pub open spec fn stepped(id: Seq<char>, public: Seq<u8>, state: StateView, event: EventView) -> (
    StateView,
    NextView,
) {
    match (state, event) {
        (StateView::Idle, EventView::Started) => (
            StateView::Registering,
            NextView::Send(request_bytes(RequestView::Register { host: id, finger: public })),
        ),
        (StateView::Registering, EventView::Answered(ack)) => answered(ack),
        (StateView::Reporting, EventView::Answered(ack)) => answered(ack),
        (StateView::Listening, EventView::Delivered { topic, body }) => if topic != encode_utf8(
            id,
        ) {
            (StateView::Listening, NextView::Listen)
        } else {
            match task_of_bytes(body) {
                Err(e) => (StateView::Stopped, NextView::Stop(e)),
                Ok(task) => advanced(id, task, Seq::empty()),
            }
        },
        (StateView::Working { task, outcomes }, EventView::Done(outcome)) => advanced(
            id,
            task,
            outcomes.push(outcome),
        ),
        _ => (StateView::Stopped, NextView::Stop(ErrorView::Unexpected)),
    }
}

impl Config {
    /// The request that makes the agent known to the master.
    pub fn register(&self, key: &Pair) -> (r: Request)
        ensures
            r@ == (RequestView::Register { host: self.id@, finger: key@.public }),
    {
        Request::Register { host: self.id.clone(), finger: key.public }
    }

    /// The request that reports what carrying out `task` came to.
    pub fn report(&self, task: &Task, outcomes: &Vec<Outcome>) -> (r: Request)
        ensures
            r@ == (RequestView::Report {
                host: self.id@,
                task: task@.id,
                result: result_text(executed(task@.payload, outcomes.deep_view())),
            }),
    {
        let result = match task.execute(outcomes) {
            Ok(report) => report,
            Err(e) => e.to_string(),
        };
        Request::Report { host: self.id.clone(), task: task.id, result }
    }

    /// Where `task` stands after `outcomes`, and what to do.
    fn advance(&self, task: Task, outcomes: Vec<Outcome>) -> (r: (State, Next))
        ensures
            (r.0@, r.1@) == advanced(self.id@, task@, outcomes.deep_view()),
    {
        match task.next(&outcomes) {
            Some(action) => (State::Working { task, outcomes }, Next::Perform(action)),
            None => {
                let report = self.report(&task, &outcomes);
                (State::Reporting, Next::Send(report.encode()))
            },
        }
    }

    /// The agent's next state and what it does, given its state and what
    /// happened.
    pub fn step(&self, key: &Pair, state: State, event: Event) -> (r: (State, Next))
        ensures
            (r.0@, r.1@) == stepped(self.id@, key@.public, state@, event@),
    {
        match (state, event) {
            (State::Idle, Event::Started) => {
                (State::Registering, Next::Send(self.register(key).encode()))
            },
            (State::Registering, Event::Answered(ack)) => acknowledge(ack),
            (State::Reporting, Event::Answered(ack)) => acknowledge(ack),
            (State::Listening, Event::Delivered { topic, body }) => {
                if !same_bytes(topic.as_slice(), self.id.as_str().as_bytes()) {
                    return (State::Listening, Next::Listen);
                }
                match Task::decode(body.as_slice()) {
                    Err(e) => (State::Stopped, Next::Stop(e)),
                    Ok(task) => {
                        let outcomes: Vec<Outcome> = Vec::new();
                        assert(outcomes.deep_view() =~= Seq::<OutcomeView>::empty());
                        self.advance(task, outcomes)
                    },
                }
            },
            (State::Working { task, outcomes }, Event::Done(outcome)) => {
                let ghost before = outcomes.deep_view();
                let mut outcomes = outcomes;
                outcomes.push(outcome);
                assert(outcomes.deep_view() =~= before.push(outcome@));
                self.advance(task, outcomes)
            },
            _ => (State::Stopped, Next::Stop(Error::Unexpected)),
        }
    }
}

/// What an answer of the master leads to.
fn acknowledge(ack: Vec<u8>) -> (r: (State, Next))
    ensures
        (r.0@, r.1@) == answered(ack@),
{
    match crate::text::from_utf8(ack) {
        Some(_) => (State::Listening, Next::Listen),
        None => (State::Stopped, Next::Stop(Error::Codec)),
    }
}

} // verus!
