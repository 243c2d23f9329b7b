//! The requests that agents and publishers send to the master, and their
//! encoding.
//!
//! A request is one of three kinds. Its encoding starts with one byte that
//! tells the kind; the fields follow, each with its length where the length
//! is not fixed, so that a message is read without anything else at hand.

use vstd::prelude::*;
use vstd::slice::*;
use vstd::string::*;

use crate::agent::task::{
    id_text, lemma_read_task, lemma_task_was_written, read_task, task_bytes, task_fits, task_text,
    Task, TaskId, TaskView, ID_LEN,
};
use crate::errors::{plain, Error, ErrorView};
use crate::key::{base64_text, Key, KEY_LEN};
use crate::text::{debug_list, debug_text};
use crate::wire::{
    get_exact, get_text, get_texts, lemma_exact_was_written, lemma_read_exact, lemma_read_text,
    lemma_read_texts, lemma_text_was_written, lemma_texts_were_written, put_bytes, put_text,
    put_texts, read_exact, read_text, read_texts, tail, text, text_fits, texts, texts_fit,
};

verus! {

/// What marks a registration in its encoding.
pub const TAG_REGISTER: u8 = 0;

/// What marks a report in its encoding.
pub const TAG_REPORT: u8 = 1;

/// What marks a publish request in its encoding.
pub const TAG_PUBLISH: u8 = 2;

/// A message to the master.
#[derive(Debug, PartialEq, Eq)]
#[allow(inconsistent_fields)]
pub enum Request {
    /// An agent makes itself known: its name and its public key.
    Register { host: String, finger: Key },
    /// An agent reports what carrying out a task came to.
    Report { host: String, task: TaskId, result: String },
    /// A publisher asks for a task to be sent to the agents named.
    Publish { secret: String, agents: Vec<String>, task: Task },
}

/// A request as a plain value.
#[allow(inconsistent_fields)]
pub enum RequestView {
    Register { host: Seq<char>, finger: Seq<u8> },
    Report { host: Seq<char>, task: Seq<u8>, result: Seq<char> },
    Publish { secret: Seq<char>, agents: Seq<Seq<char>>, task: TaskView },
}

impl View for Request {
    type V = RequestView;

    open spec fn view(&self) -> RequestView {
        match self {
            Request::Register { host, finger } => RequestView::Register {
                host: host@,
                finger: finger@,
            },
            Request::Report { host, task, result } => RequestView::Report {
                host: host@,
                task: task@,
                result: result@,
            },
            Request::Publish { secret, agents, task } => RequestView::Publish {
                secret: secret@,
                agents: agents.deep_view(),
                task: task@,
            },
        }
    }
}

impl DeepView for Request {
    type V = RequestView;

    open spec fn deep_view(&self) -> RequestView {
        self@
    }
}

/// A request, written down: its tag, then its fields.
pub open spec fn request_bytes(r: RequestView) -> Seq<u8> {
    match r {
        RequestView::Register { host, finger } => seq![TAG_REGISTER] + text(host) + finger,
        RequestView::Report { host, task, result } => seq![TAG_REPORT] + text(host) + task + text(
            result,
        ),
        RequestView::Publish { secret, agents, task } => seq![TAG_PUBLISH] + text(secret) + texts(
            agents,
        ) + task_bytes(task),
    }
}

/// Whether a request can be written down: its key and id have their
/// lengths, and no text or list is longer than a length can say.
pub open spec fn request_fits(r: RequestView) -> bool {
    match r {
        RequestView::Register { host, finger } => text_fits(host) && finger.len() == KEY_LEN,
        RequestView::Report { host, task, result } => text_fits(host) && task.len() == ID_LEN
            && text_fits(result),
        RequestView::Publish { secret, agents, task } => text_fits(secret) && texts_fit(agents)
            && task_fits(task),
    }
}

/// Reads a registration's fields.
pub open spec fn read_register(s: Seq<u8>) -> Option<(RequestView, Seq<u8>)> {
    match read_text(s) {
        None => None,
        Some((host, rest)) => match read_exact(rest, KEY_LEN as nat) {
            None => None,
            Some((finger, last)) => Some((RequestView::Register { host, finger }, last)),
        },
    }
}

/// Reads a report's fields.
pub open spec fn read_report(s: Seq<u8>) -> Option<(RequestView, Seq<u8>)> {
    match read_text(s) {
        None => None,
        Some((host, rest)) => match read_exact(rest, ID_LEN as nat) {
            None => None,
            Some((task, more)) => match read_text(more) {
                None => None,
                Some((result, last)) => Some((RequestView::Report { host, task, result }, last)),
            },
        },
    }
}

/// Reads a publish request's fields.
pub open spec fn read_publish(s: Seq<u8>) -> Option<(RequestView, Seq<u8>)> {
    match read_text(s) {
        None => None,
        Some((secret, rest)) => match read_texts(rest) {
            None => None,
            Some((agents, more)) => match read_task(more) {
                None => None,
                Some((task, last)) => Some((RequestView::Publish { secret, agents, task }, last)),
            },
        },
    }
}

/// Reads a request from the front of `s`.
pub open spec fn read_request(s: Seq<u8>) -> Option<(RequestView, Seq<u8>)> {
    if s.len() < 1 {
        None
    } else if s[0] == TAG_REGISTER {
        read_register(s.subrange(1, s.len() as int))
    } else if s[0] == TAG_REPORT {
        read_report(s.subrange(1, s.len() as int))
    } else if s[0] == TAG_PUBLISH {
        read_publish(s.subrange(1, s.len() as int))
    } else {
        None
    }
}

/// What `Request::decode` makes of bytes: the request that they are the
/// encoding of, to the last byte.
pub open spec fn request_of_bytes(s: Seq<u8>) -> Result<RequestView, ErrorView> {
    match read_request(s) {
        Some((request, rest)) => if rest.len() == 0 {
            Ok(request)
        } else {
            Err(ErrorView::Codec)
        },
        None => Err(ErrorView::Codec),
    }
}

/// A request that was written is read back, and what follows it is left.
pub proof fn lemma_read_request(r: RequestView, rest: Seq<u8>)
    requires
        request_fits(r),
    ensures
        read_request(request_bytes(r) + rest) == Some((r, rest)),
{
    let s = request_bytes(r) + rest;
    let fields = s.subrange(1, s.len() as int);
    match r {
        RequestView::Register { host, finger } => {
            let after = finger + rest;
            assert(fields =~= text(host) + after);
            lemma_read_text(host, after);
            lemma_read_exact(finger, rest);
        },
        RequestView::Report { host, task, result } => {
            let more = text(result) + rest;
            let after = task + more;
            assert(fields =~= text(host) + after);
            lemma_read_text(host, after);
            lemma_read_exact(task, more);
            lemma_read_text(result, rest);
        },
        RequestView::Publish { secret, agents, task } => {
            let more = task_bytes(task) + rest;
            let after = texts(agents) + more;
            assert(fields =~= text(secret) + after);
            lemma_read_text(secret, after);
            lemma_read_texts(agents, more);
            lemma_read_task(task, rest);
        },
    }
}

/// Encoding then decoding a request of any of the three kinds gives the
/// request back.
pub proof fn lemma_request_round_trip(r: RequestView)
    requires
        request_fits(r),
    ensures
        request_of_bytes(request_bytes(r)) == Ok::<RequestView, ErrorView>(r),
{
    lemma_read_request(r, Seq::empty());
    assert(request_bytes(r) + Seq::<u8>::empty() =~= request_bytes(r));
}

/// The fields of a registration that were read had been written.
pub proof fn lemma_register_was_written(s: Seq<u8>)
    ensures
        read_register(s) matches Some((r, rest)) ==> request_fits(r) && seq![TAG_REGISTER] + s
            == request_bytes(r) + rest,
{
    lemma_text_was_written(s);
    if let Some((host, after)) = read_text(s) {
        lemma_exact_was_written(after, KEY_LEN as nat);
        if let Some((finger, rest)) = read_exact(after, KEY_LEN as nat) {
            let r = RequestView::Register { host, finger };
            assert(seq![TAG_REGISTER] + s =~= request_bytes(r) + rest);
        }
    }
}

/// The fields of a report that were read had been written.
pub proof fn lemma_report_was_written(s: Seq<u8>)
    ensures
        read_report(s) matches Some((r, rest)) ==> request_fits(r) && seq![TAG_REPORT] + s
            == request_bytes(r) + rest,
{
    lemma_text_was_written(s);
    if let Some((host, after)) = read_text(s) {
        lemma_exact_was_written(after, ID_LEN as nat);
        if let Some((task, more)) = read_exact(after, ID_LEN as nat) {
            lemma_text_was_written(more);
            if let Some((result, rest)) = read_text(more) {
                let r = RequestView::Report { host, task, result };
                assert(seq![TAG_REPORT] + s =~= request_bytes(r) + rest);
            }
        }
    }
}

/// The fields of a publish request that were read had been written.
pub proof fn lemma_publish_was_written(s: Seq<u8>)
    ensures
        read_publish(s) matches Some((r, rest)) ==> request_fits(r) && seq![TAG_PUBLISH] + s
            == request_bytes(r) + rest,
{
    lemma_text_was_written(s);
    if let Some((secret, after)) = read_text(s) {
        lemma_texts_were_written(after);
        if let Some((agents, more)) = read_texts(after) {
            lemma_task_was_written(more);
            if let Some((task, rest)) = read_task(more) {
                let r = RequestView::Publish { secret, agents, task };
                assert(seq![TAG_PUBLISH] + s =~= request_bytes(r) + rest);
            }
        }
    }
}

/// A request that was read had been written.
pub proof fn lemma_request_was_written(s: Seq<u8>)
    ensures
        read_request(s) matches Some((r, rest)) ==> request_fits(r) && s == request_bytes(r)
            + rest,
{
    if s.len() >= 1 {
        let fields = s.subrange(1, s.len() as int);
        assert(s =~= seq![s[0]] + fields);
        lemma_register_was_written(fields);
        lemma_report_was_written(fields);
        lemma_publish_was_written(fields);
    }
}

/// Bytes are read as a request only if they are the request's encoding:
/// decoding then encoding gives the bytes back, so that no two messages
/// stand for one request.
pub proof fn lemma_request_bytes_exact(s: Seq<u8>)
    ensures
        request_of_bytes(s) matches Ok(r) ==> request_fits(r) && request_bytes(r) == s,
{
    lemma_request_was_written(s);
    if let Some((r, rest)) = read_request(s) {
        if rest.len() == 0 {
            assert(request_bytes(r) + rest =~= request_bytes(r));
        }
    }
}

/// How a request is shown in a log. The secret of a publish request is left
/// out.
pub open spec fn request_text(r: RequestView) -> Seq<char> {
    match r {
        RequestView::Register { host, finger } => "register "@ + host + " "@ + base64_text(finger),
        RequestView::Report { host, task, result } => "report "@ + host + "@"@ + id_text(task)
            + "\n"@ + result,
        RequestView::Publish { secret, agents, task } => "publish "@ + debug_text(agents) + "\n"@
            + task_text(task),
    }
}

impl Request {
    /// The request as text, for a log.
    pub fn to_string(&self) -> (r: String)
        ensures
            r@ == request_text(self@),
    {
        match self {
            Request::Register { host, finger } => {
                let mut out = "register ".to_owned();
                out.append(host.as_str());
                out.append(" ");
                out.append(finger.to_string().as_str());
                out
            },
            Request::Report { host, task, result } => {
                let mut out = "report ".to_owned();
                out.append(host.as_str());
                out.append("@");
                out.append(task.to_string().as_str());
                out.append("\n");
                out.append(result.as_str());
                out
            },
            Request::Publish { secret, agents, task } => {
                let mut out = "publish ".to_owned();
                out.append(debug_list(agents).as_str());
                out.append("\n");
                out.append(task.to_string().as_str());
                out
            },
        }
    }

    /// The request as the bytes that go over the wire.
    pub fn encode(&self) -> (r: Vec<u8>)
        ensures
            r@ == request_bytes(self@),
            request_fits(self@),
    {
        let mut out: Vec<u8> = Vec::new();
        match self {
            Request::Register { host, finger } => {
                out.push(TAG_REGISTER);
                put_text(&mut out, host.as_str());
                put_bytes(&mut out, finger.0.as_slice());
            },
            Request::Report { host, task, result } => {
                out.push(TAG_REPORT);
                put_text(&mut out, host.as_str());
                put_bytes(&mut out, task.0.as_slice());
                put_text(&mut out, result.as_str());
            },
            Request::Publish { secret, agents, task } => {
                out.push(TAG_PUBLISH);
                put_text(&mut out, secret.as_str());
                put_texts(&mut out, agents);
                task.put(&mut out);
            },
        }
        assert(out@ =~= request_bytes(self@));
        out
    }

    /// Reads a request from the bytes that came over the wire.
    pub fn decode(buf: &[u8]) -> (r: Result<Request, Error>)
        ensures
            plain(r) == request_of_bytes(buf@),
    {
        if buf.len() < 1 {
            return Err(Error::Codec);
        }
        let tag = buf[0];
        assert(buf@.subrange(1, buf@.len() as int) =~= tail(buf@, 1));
        let found = if tag == TAG_REGISTER {
            Request::get_register(buf)
        } else if tag == TAG_REPORT {
            Request::get_report(buf)
        } else if tag == TAG_PUBLISH {
            Request::get_publish(buf)
        } else {
            None
        };
        match found {
            None => Err(Error::Codec),
            Some((request, end)) => {
                if end == buf.len() {
                    Ok(request)
                } else {
                    Err(Error::Codec)
                }
            },
        }
    }

    fn get_register(buf: &[u8]) -> (r: Option<(Request, usize)>)
        requires
            buf@.len() >= 1,
        ensures
            match r {
                None => read_register(tail(buf@, 1)) is None,
                Some((request, end)) => end <= buf@.len() && read_register(tail(buf@, 1)) == Some(
                    (request@, tail(buf@, end as int)),
                ),
            },
    {
        let (host, at) = match get_text(buf, 1) {
            None => { return None; },
            Some(found) => found,
        };
        let (raw, end) = match get_exact(buf, at, KEY_LEN) {
            None => { return None; },
            Some(found) => found,
        };
        let finger = Key::from_bytes(raw.as_slice());
        assert(finger@ =~= raw@);
        Some((Request::Register { host, finger }, end))
    }

    fn get_report(buf: &[u8]) -> (r: Option<(Request, usize)>)
        requires
            buf@.len() >= 1,
        ensures
            match r {
                None => read_report(tail(buf@, 1)) is None,
                Some((request, end)) => end <= buf@.len() && read_report(tail(buf@, 1)) == Some(
                    (request@, tail(buf@, end as int)),
                ),
            },
    {
        let (host, at) = match get_text(buf, 1) {
            None => { return None; },
            Some(found) => found,
        };
        let (raw, more) = match get_exact(buf, at, ID_LEN) {
            None => { return None; },
            Some(found) => found,
        };
        let task = TaskId::from_bytes(raw.as_slice());
        assert(task@ =~= raw@);
        let (result, end) = match get_text(buf, more) {
            None => { return None; },
            Some(found) => found,
        };
        Some((Request::Report { host, task, result }, end))
    }

    fn get_publish(buf: &[u8]) -> (r: Option<(Request, usize)>)
        requires
            buf@.len() >= 1,
        ensures
            match r {
                None => read_publish(tail(buf@, 1)) is None,
                Some((request, end)) => end <= buf@.len() && read_publish(tail(buf@, 1)) == Some(
                    (request@, tail(buf@, end as int)),
                ),
            },
    {
        let (secret, at) = match get_text(buf, 1) {
            None => { return None; },
            Some(found) => found,
        };
        let (agents, more) = match get_texts(buf, at) {
            None => { return None; },
            Some(found) => found,
        };
        let (task, end) = match Task::get(buf, more) {
            None => { return None; },
            Some(found) => found,
        };
        Some((Request::Publish { secret, agents, task }, end))
    }
}

} // verus!
