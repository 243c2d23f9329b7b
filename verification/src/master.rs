//! The master: it answers the requests that come in on its reply channel,
//! keeps the registry, and sends tasks out on its publish channel.
//!
//! Handling a request is a function from the registry and the request to the
//! registry afterwards, the messages to send on the publish channel, and the
//! key to answer with. The sockets belong to the caller: it sends the
//! messages in order, and answers "Ok" under the key where there is one.

pub mod agents;

use vstd::prelude::*;
use vstd::slice::*;
use vstd::string::*;

use crate::agent::task::{task_bytes, TaskView};
use crate::errors::{plain, Error, ErrorView};
use crate::key::{base64_text, key_of_text, Key, Pair};
use crate::orm::models::{
    added, found, fresh, has_serial, lemma_added_wf, lemma_found_at, lemma_found_serial, lemma_rank,
    lemma_serial_count_insert, lemma_serial_count_none, rank, registry_wf, serial_count, AgentView,
    Registry, RegistryView,
};
use crate::protocol::{request_of_bytes, request_text, Request, RequestView};
use crate::text::{decimal, push_decimal, same_text};
use crate::Port;

verus! {

/// The file that holds the master's key pair.
pub const KEY_FILE: &'static str = "master.key";

/// The file that holds the master's configuration.
pub const CONFIG_FILE: &'static str = "master.toml";

/// What the master is configured with.
#[derive(Debug, PartialEq, Eq)]
pub struct Config {
    pub port: Port,
    /// What a publisher has to show.
    pub secret: String,
}

/// The address on which a channel is bound, on every interface.
pub open spec fn bind_url(port: int) -> Seq<char> {
    "tcp://*:"@ + decimal(port as nat)
}

impl Config {
    /// The address on which the publish channel is bound.
    pub fn publisher(&self) -> (r: String)
        ensures
            r@ == bind_url(self.port.publisher as int),
    {
        let mut out = "tcp://*:".to_owned();
        push_decimal(&mut out, self.port.publisher() as u64);
        out
    }

    /// The address on which the reply channel is bound.
    pub fn reporter(&self) -> (r: String)
        ensures
            r@ == bind_url(self.port.reporter as int),
    {
        let mut out = "tcp://*:".to_owned();
        push_decimal(&mut out, self.port.reporter() as u64);
        out
    }
}

/// A message for the publish channel, in two parts: the serial of the agent
/// it is for, which the agent subscribes to, and the encoded task.
#[derive(Debug, PartialEq, Eq)]
pub struct Envelope {
    pub topic: String,
    pub body: Vec<u8>,
}

/// A message for the publish channel as a plain value.
pub struct EnvelopeView {
    pub topic: Seq<char>,
    pub body: Seq<u8>,
}

impl View for Envelope {
    type V = EnvelopeView;

    open spec fn view(&self) -> EnvelopeView {
        EnvelopeView { topic: self.topic@, body: self.body@ }
    }
}

impl DeepView for Envelope {
    type V = EnvelopeView;

    open spec fn deep_view(&self) -> EnvelopeView {
        self@
    }
}

/// What handling one request came to.
#[derive(Debug, PartialEq, Eq)]
pub struct Handled {
    /// The request in words, for the log: a report is kept nowhere else.
    /// Empty where the request could not be read.
    pub log: String,
    /// The messages to send on the publish channel, in this order.
    pub sent: Vec<Envelope>,
    /// The key to answer under, or why there is no answer.
    pub reply: Result<Key, Error>,
}

/// What handling one request comes to, as a plain value, with the registry
/// as it is afterwards.
pub struct Effect {
    pub registry: RegistryView,
    pub log: Seq<char>,
    pub sent: Seq<EnvelopeView>,
    pub reply: Result<Seq<u8>, ErrorView>,
}

/// A registration: a serial that is not known yet gets a row with the key
/// shown, not trusted; a known serial changes nothing. Either way the answer
/// goes out under the key shown.
pub open spec fn registered(reg: RegistryView, host: Seq<char>, finger: Seq<u8>, now: int)
    -> Effect {
    let log = request_text(RequestView::Register { host, finger });
    if has_serial(reg.rows, host) {
        Effect { registry: reg, log, sent: Seq::empty(), reply: Ok(finger) }
    } else {
        match added(reg, host, base64_text(finger), now) {
            Ok(after) => Effect { registry: after, log, sent: Seq::empty(), reply: Ok(finger) },
            Err(e) => Effect { registry: reg, log, sent: Seq::empty(), reply: Err(e) },
        }
    }
}

/// A report: it goes to the log, and the answer goes out under the key that
/// the registry holds for the agent.
pub open spec fn reported(reg: RegistryView, host: Seq<char>, task: Seq<u8>, result: Seq<char>)
    -> Effect {
    Effect {
        registry: reg,
        log: request_text(RequestView::Report { host, task, result }),
        sent: Seq::empty(),
        reply: match found(reg.rows, host) {
            Err(e) => Err(e),
            Ok(row) => key_of_text(row.key),
        },
    }
}

/// The messages that a task for `agents` comes to, and the failure that
/// ended the sending, if any. The agents are taken in order: one that is
/// trusted gets a message, one that is not is passed over, and one that the
/// registry does not know ends the sending.
pub open spec fn fan_out(rows: Seq<AgentView>, agents: Seq<Seq<char>>, body: Seq<u8>) -> (
    Seq<EnvelopeView>,
    Option<ErrorView>,
)
    decreases agents.len(),
{
    if agents.len() == 0 {
        (Seq::empty(), None)
    } else {
        let (sent, failure) = fan_out(rows, agents.drop_last(), body);
        if failure is Some {
            (sent, failure)
        } else {
            match found(rows, agents.last()) {
                Err(e) => (sent, Some(e)),
                Ok(row) => if row.enable {
                    (sent.push(EnvelopeView { topic: row.sn, body }), None)
                } else {
                    (sent, None)
                },
            }
        }
    }
}

/// A publish request: nothing is sent unless the secret is the configured
/// one; the answer goes out under the master's own public key.
pub open spec fn published(
    configured: Seq<char>,
    own: Seq<u8>,
    reg: RegistryView,
    secret: Seq<char>,
    agents: Seq<Seq<char>>,
    task: TaskView,
) -> Effect {
    let log = request_text(RequestView::Publish { secret, agents, task });
    if secret != configured {
        Effect { registry: reg, log, sent: Seq::empty(), reply: Err(ErrorView::Unauthorized) }
    } else {
        let (sent, failure) = fan_out(reg.rows, agents, task_bytes(task));
        Effect {
            registry: reg,
            log,
            sent,
            reply: match failure {
                None => Ok(own),
                Some(e) => Err(e),
            },
        }
    }
}

/// What handling a request at the time `now` comes to.
pub open spec fn handled(
    configured: Seq<char>,
    own: Seq<u8>,
    reg: RegistryView,
    request: RequestView,
    now: int,
) -> Effect {
    match request {
        RequestView::Register { host, finger } => registered(reg, host, finger, now),
        RequestView::Report { host, task, result } => reported(reg, host, task, result),
        RequestView::Publish { secret, agents, task } => published(
            configured,
            own,
            reg,
            secret,
            agents,
            task,
        ),
    }
}

/// What the bytes that came in on the reply channel come to: a message that
/// cannot be read changes nothing and gets no answer.
pub open spec fn received(
    configured: Seq<char>,
    own: Seq<u8>,
    reg: RegistryView,
    buf: Seq<u8>,
    now: int,
) -> Effect {
    match request_of_bytes(buf) {
        Err(e) => Effect { registry: reg, log: Seq::empty(), sent: Seq::empty(), reply: Err(e) },
        Ok(request) => handled(configured, own, reg, request, now),
    }
}

/// Whether handling came to `effect`.
pub open spec fn came_to(after: RegistryView, r: Handled, effect: Effect) -> bool {
    &&& after == effect.registry
    &&& r.log@ == effect.log
    &&& r.sent.deep_view() == effect.sent
    &&& plain(r.reply) == effect.reply
}

/// Handles one request at the time `now`.
pub fn handle(cfg: &Config, key: &Pair, db: &mut Registry, request: &Request, now: i64) -> (r:
    Handled)
    ensures
        registry_wf(old(db)@),
        registry_wf(final(db)@),
        came_to(
            final(db)@,
            r,
            handled(cfg.secret@, key@.public, old(db)@, request@, now as int),
        ),
{
    let mut sent: Vec<Envelope> = Vec::new();
    assert(sent.deep_view() =~= Seq::<EnvelopeView>::empty());
    db.sound();
    let log = request.to_string();
    match request {
        Request::Register { host, finger } => {
            let known = db.by_sn(host.as_str());
            let reply = match known {
                Ok(_) => Ok(*finger),
                Err(_) => {
                    let text = finger.to_string();
                    match db.add_at(host.as_str(), text.as_str(), now) {
                        Ok(()) => Ok(*finger),
                        Err(e) => Err(e),
                    }
                },
            };
            Handled { log, sent, reply }
        },
        Request::Report { host, task, result } => {
            let reply = match db.by_sn(host.as_str()) {
                Err(e) => Err(e),
                Ok(row) => Key::from_str(row.key.as_str()),
            };
            Handled { log, sent, reply }
        },
        Request::Publish { secret, agents, task } => {
            if !same_text(secret.as_str(), cfg.secret.as_str()) {
                return Handled { log, sent, reply: Err(Error::Unauthorized) };
            }
            let body = task.encode();
            let (sent, failure) = publish(db, agents, body.as_slice());
            match failure {
                None => Handled { log, sent, reply: Ok(key.public) },
                Some(e) => Handled { log, sent, reply: Err(e) },
            }
        },
    }
}

/// The messages that `body` for `agents` comes to, and the failure that
/// ended the sending, if any.
pub fn publish(db: &Registry, agents: &Vec<String>, body: &[u8]) -> (r: (
    Vec<Envelope>,
    Option<Error>,
))
    ensures
        registry_wf(db@),
        r.0.deep_view() == fan_out(db@.rows, agents.deep_view(), body@).0,
        r.1.deep_view() == fan_out(db@.rows, agents.deep_view(), body@).1,
{
    let mut sent: Vec<Envelope> = Vec::new();
    assert(sent.deep_view() =~= Seq::<EnvelopeView>::empty());
    db.sound();
    let ghost rows = db@.rows;
    let ghost names = agents.deep_view();
    let mut i: usize = 0;
    assert(names.take(0) =~= Seq::<Seq<char>>::empty());
    while i < agents.len()
        invariant
            i <= agents.len(),
            registry_wf(db@),
            rows == db@.rows,
            names == agents.deep_view(),
            fan_out(rows, names.take(i as int), body@) == (sent.deep_view(), None::<ErrorView>),
        decreases agents.len() - i,
    {
        let ghost before = sent.deep_view();
        proof {
            let upto = names.take(i + 1);
            assert(upto.drop_last() =~= names.take(i as int));
            assert(upto.last() == agents@[i as int]@);
        }
        match db.by_sn(agents[i].as_str()) {
            Err(e) => {
                proof {
                    let upto = names.take(i + 1);
                    assert(fan_out(rows, upto, body@) == (before, Some(e@)));
                    lemma_fan_out_failed(rows, names, body@, i + 1);
                }
                return (sent, Some(e));
            },
            Ok(row) => {
                if row.enable {
                    sent.push(Envelope { topic: row.sn, body: slice_to_vec(body) });
                    assert(sent.deep_view() =~= before.push(
                        EnvelopeView { topic: row.sn@, body: body@ },
                    ));
                }
            },
        }
        i += 1;
    }
    assert(names.take(i as int) =~= names);
    (sent, None)
}


/// Once an agent is not known, the rest of the list changes nothing.
pub proof fn lemma_fan_out_failed(
    rows: Seq<AgentView>,
    agents: Seq<Seq<char>>,
    body: Seq<u8>,
    n: int,
)
    requires
        0 <= n <= agents.len(),
        fan_out(rows, agents.take(n), body).1 is Some,
    ensures
        fan_out(rows, agents, body) == fan_out(rows, agents.take(n), body),
    decreases agents.len(),
{
    if n < agents.len() {
        assert(agents.drop_last().take(n) =~= agents.take(n));
        lemma_fan_out_failed(rows, agents.drop_last(), body, n);
    } else {
        assert(agents.take(n) =~= agents);
    }
}

/// Handles the bytes that came in on the reply channel, at the time `now`.
pub fn reporter_at(cfg: &Config, key: &Pair, db: &mut Registry, buf: &[u8], now: i64) -> (r:
    Handled)
    ensures
        registry_wf(old(db)@),
        registry_wf(final(db)@),
        came_to(
            final(db)@,
            r,
            received(cfg.secret@, key@.public, old(db)@, buf@, now as int),
        ),
{
    match Request::decode(buf) {
        Err(e) => {
            let sent: Vec<Envelope> = Vec::new();
            assert(sent.deep_view() =~= Seq::<EnvelopeView>::empty());
            db.sound();
            Handled { log: String::new(), sent, reply: Err(e) }
        },
        Ok(request) => handle(cfg, key, db, &request, now),
    }
}

/// Handles the bytes that came in on the reply channel: what `reporter_at`
/// does at some time.
pub fn reporter(cfg: &Config, key: &Pair, db: &mut Registry, buf: &[u8]) -> (r: Handled)
    ensures
        registry_wf(old(db)@),
        registry_wf(final(db)@),
        exists|now: i64|
            came_to(
                final(db)@,
                r,
                #[trigger] received(cfg.secret@, key@.public, old(db)@, buf@, now as int),
            ),
{
    let now = crate::orm::models::now();
    let r = reporter_at(cfg, key, db, buf, now);
    assert(came_to(db@, r, received(cfg.secret@, key@.public, old(db)@, buf@, now as int)));
    r
}

/// After a registration under a serial that was not known, the registry
/// holds exactly one row of that serial: not trusted, with the key shown.
/// This is so while the registry has an id left to give.
pub proof fn lemma_register_unseen(reg: RegistryView, host: Seq<char>, finger: Seq<u8>, now: int)
    requires
        registry_wf(reg),
        !has_serial(reg.rows, host),
        reg.next < i32::MAX,
    ensures
        ({
            let after = registered(reg, host, finger, now);
            let row = fresh(reg.next, host, base64_text(finger), now);
            &&& after.reply == Ok::<Seq<u8>, ErrorView>(finger)
            &&& registry_wf(after.registry)
            &&& serial_count(after.registry.rows, host) == 1
            &&& found(after.registry.rows, host) == Ok::<AgentView, ErrorView>(row)
            &&& !row.enable
        }),
{
    let key = base64_text(finger);
    let at = rank(reg.rows, host);
    lemma_rank(reg.rows, host);
    lemma_added_wf(reg, host, key, now);
    lemma_serial_count_none(reg.rows, host);
    lemma_serial_count_insert(reg.rows, at, fresh(reg.next, host, key, now), host);
    let after = registered(reg, host, finger, now).registry;
    assert(after.rows[at] == fresh(reg.next, host, key, now));
    lemma_found_at(after.rows, at);
}

/// A registration under a known serial changes nothing in the registry,
/// whatever key is shown: the row keeps the key it has.
pub proof fn lemma_register_known(reg: RegistryView, host: Seq<char>, finger: Seq<u8>, now: int)
    requires
        has_serial(reg.rows, host),
    ensures
        registered(reg, host, finger, now).registry == reg,
        found(registered(reg, host, finger, now).registry.rows, host) == found(reg.rows, host),
{
}

/// A publish request with another secret than the configured one sends
/// nothing, to no agent, and changes nothing.
pub proof fn lemma_publish_unauthorized(
    configured: Seq<char>,
    own: Seq<u8>,
    reg: RegistryView,
    secret: Seq<char>,
    agents: Seq<Seq<char>>,
    task: TaskView,
)
    requires
        secret != configured,
    ensures
        published(configured, own, reg, secret, agents, task).sent == Seq::<EnvelopeView>::empty(),
        published(configured, own, reg, secret, agents, task).registry == reg,
        published(configured, own, reg, secret, agents, task).reply == Err::<Seq<u8>, ErrorView>(
            ErrorView::Unauthorized,
        ),
{
}

/// Whether the agents up to the `n`th are all known.
pub open spec fn known_upto(rows: Seq<AgentView>, agents: Seq<Seq<char>>, n: int) -> bool {
    forall|j: int| 0 <= j <= n ==> has_serial(rows, #[trigger] agents[j])
}

/// Who gets a published task. Every message carries the task, and is for an
/// agent that is named and trusted: none goes to an agent that is not
/// trusted. An agent that is named and trusted gets its message, whatever
/// other agents are not trusted, if every agent named up to it is known.
/// The sending fails only where an agent named is not known.
pub proof fn lemma_fan_out(rows: Seq<AgentView>, agents: Seq<Seq<char>>, body: Seq<u8>)
    ensures
        ({
            let (sent, failure) = fan_out(rows, agents, body);
            &&& forall|k: int|
                0 <= k < sent.len() ==> {
                    &&& (#[trigger] sent[k]).body == body
                    &&& agents.contains(sent[k].topic)
                    &&& found(rows, sent[k].topic) matches Ok(row) && row.enable
                }
            &&& forall|i: int|
                0 <= i < agents.len() && known_upto(rows, agents, i) && (found(
                    rows,
                    #[trigger] agents[i],
                ) matches Ok(row) && row.enable) ==> sent.contains(
                    EnvelopeView { topic: agents[i], body },
                )
            &&& failure is Some <==> !known_upto(rows, agents, agents.len() - 1)
        }),
    decreases agents.len(),
{
    let (sent, failure) = fan_out(rows, agents, body);
    if agents.len() > 0 {
        let front = agents.drop_last();
        let last = agents.last();
        let (before, failed) = fan_out(rows, front, body);
        lemma_fan_out(rows, front, body);
        lemma_found_serial(rows, last);
        assert(forall|j: int| 0 <= j < front.len() ==> front[j] == agents[j]);
        assert(known_upto(rows, front, front.len() - 1) <==> known_upto(
            rows,
            agents,
            agents.len() - 2,
        ));
        assert forall|k: int| 0 <= k < sent.len() implies {
            &&& (#[trigger] sent[k]).body == body
            &&& agents.contains(sent[k].topic)
            &&& found(rows, sent[k].topic) matches Ok(row) && row.enable
        } by {
            if k < before.len() {
                assert(sent[k] == before[k]);
                let i = choose|i: int| 0 <= i < front.len() && front[i] == before[k].topic;
                assert(agents[i] == before[k].topic);
            } else {
                assert(agents[agents.len() - 1] == last);
            }
        }
        assert forall|i: int|
            0 <= i < agents.len() && known_upto(rows, agents, i) && (found(
                rows,
                #[trigger] agents[i],
            ) matches Ok(row) && row.enable) implies sent.contains(
            EnvelopeView { topic: agents[i], body },
        ) by {
            let wanted = EnvelopeView { topic: agents[i], body };
            if i < front.len() {
                assert(known_upto(rows, front, i)) by {
                    assert forall|j: int| 0 <= j <= i implies has_serial(
                        rows,
                        #[trigger] front[j],
                    ) by {
                        assert(has_serial(rows, agents[j]));
                    }
                }
                assert(front[i] == agents[i]);
                let k = choose|k: int| 0 <= k < before.len() && before[k] == wanted;
                assert(sent[k] == wanted);
            } else {
                assert(known_upto(rows, agents, agents.len() - 2));
                assert(sent[sent.len() - 1] == wanted);
            }
        }
        if failure is Some {
            if failed is None {
                assert(!has_serial(rows, agents[agents.len() - 1]));
            }
        } else {
            assert forall|j: int| 0 <= j <= agents.len() - 1 implies has_serial(
                rows,
                #[trigger] agents[j],
            ) by {
                if j == agents.len() - 1 {
                } else {
                    assert(known_upto(rows, agents, agents.len() - 2));
                }
            }
        }
    }
}

/// No message of a published task goes to the topic of an agent that is not
/// trusted.
pub proof fn lemma_disabled_gets_nothing(
    rows: Seq<AgentView>,
    agents: Seq<Seq<char>>,
    body: Seq<u8>,
    sn: Seq<char>,
)
    requires
        found(rows, sn) matches Ok(row) && !row.enable,
    ensures
        forall|k: int|
            0 <= k < fan_out(rows, agents, body).0.len() ==> (#[trigger] fan_out(
                rows,
                agents,
                body,
            ).0[k]).topic != sn,
{
    lemma_fan_out(rows, agents, body);
}

} // verus!
