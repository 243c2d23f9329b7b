//! Tasks: what the master sends to an agent, and what carrying one out
//! comes to.
//!
//! A task is an id and a list of payloads, carried out in order. A payload is
//! a script to run as some user, or a file to write.

use vstd::prelude::*;
use vstd::slice::*;
use vstd::string::*;

use crate::errors::{plain, Error, ErrorView};
use crate::text::{
    decimal, from_utf8_lossy, hex, lossy_text, push_decimal, push_hex,
};
use crate::wire::{
    blob, fits, get_blob, get_exact, get_len, get_text, len_bytes, lemma_blob_was_written,
    lemma_exact_was_written, lemma_len_was_written, lemma_read_blob, lemma_read_exact,
    lemma_read_len, lemma_read_text, lemma_text_was_written, put_blob, put_bytes, put_len,
    put_text, read_blob, read_exact, read_len, read_text, tail, text, text_fits,
};

verus! {

/// How many bytes a task's id holds.
pub const ID_LEN: usize = 16;

/// What marks a shell payload in its encoding.
pub const TAG_SHELL: u8 = 0;

/// What marks a file payload in its encoding.
pub const TAG_FILE: u8 = 1;

/// The id of a task: the 16 bytes of a UUID.
#[derive(Clone, Copy, Debug, PartialEq, Eq)]
pub struct TaskId(pub [u8; 16]);

impl View for TaskId {
    type V = Seq<u8>;

    open spec fn view(&self) -> Seq<u8> {
        self.0@
    }
}

impl DeepView for TaskId {
    type V = Seq<u8>;

    open spec fn deep_view(&self) -> Seq<u8> {
        self@
    }
}

/// One step of a task.
#[derive(Debug, PartialEq, Eq)]
pub enum Payload {
    /// Run `script` as the local user `user`.
    Shell { user: String, script: String },
    /// Write `body` to the file at `path`, replacing what it held.
    File { path: String, body: Vec<u8> },
}

/// A payload as a plain value.
pub enum PayloadView {
    Shell { user: Seq<char>, script: Seq<char> },
    File { path: Seq<char>, body: Seq<u8> },
}

impl View for Payload {
    type V = PayloadView;

    open spec fn view(&self) -> PayloadView {
        match self {
            Payload::Shell { user, script } => PayloadView::Shell { user: user@, script: script@ },
            Payload::File { path, body } => PayloadView::File { path: path@, body: body@ },
        }
    }
}

impl DeepView for Payload {
    type V = PayloadView;

    open spec fn deep_view(&self) -> PayloadView {
        self@
    }
}

/// A unit of work for an agent.
#[derive(Debug, PartialEq, Eq)]
pub struct Task {
    pub id: TaskId,
    pub payload: Vec<Payload>,
}

/// A task as a plain value.
pub struct TaskView {
    pub id: Seq<u8>,
    pub payload: Seq<PayloadView>,
}

impl View for Task {
    type V = TaskView;

    open spec fn view(&self) -> TaskView {
        TaskView { id: self.id@, payload: self.payload.deep_view() }
    }
}

impl DeepView for Task {
    type V = TaskView;

    open spec fn deep_view(&self) -> TaskView {
        self@
    }
}

/// A payload, written down: its tag, then its two fields.
pub open spec fn payload_bytes(p: PayloadView) -> Seq<u8> {
    match p {
        PayloadView::Shell { user, script } => seq![TAG_SHELL] + text(user) + text(script),
        PayloadView::File { path, body } => seq![TAG_FILE] + text(path) + blob(body),
    }
}

/// Whether a payload can be written down.
pub open spec fn payload_fits(p: PayloadView) -> bool {
    match p {
        PayloadView::Shell { user, script } => text_fits(user) && text_fits(script),
        PayloadView::File { path, body } => text_fits(path) && fits(body.len()),
    }
}

/// Reads a payload from the front of `s`.
pub open spec fn read_payload(s: Seq<u8>) -> Option<(PayloadView, Seq<u8>)> {
    if s.len() < 1 {
        None
    } else if s[0] == TAG_SHELL {
        match read_text(s.subrange(1, s.len() as int)) {
            None => None,
            Some((user, rest)) => match read_text(rest) {
                None => None,
                Some((script, last)) => Some((PayloadView::Shell { user, script }, last)),
            },
        }
    } else if s[0] == TAG_FILE {
        match read_text(s.subrange(1, s.len() as int)) {
            None => None,
            Some((path, rest)) => match read_blob(rest) {
                None => None,
                Some((body, last)) => Some((PayloadView::File { path, body }, last)),
            },
        }
    } else {
        None
    }
}

/// The payloads of a task, one after the other.
pub open spec fn payloads_body(ps: Seq<PayloadView>) -> Seq<u8>
    decreases ps.len(),
{
    if ps.len() == 0 {
        Seq::empty()
    } else {
        payload_bytes(ps[0]) + payloads_body(ps.drop_first())
    }
}

/// Reads `n` payloads from the front of `s`.
pub open spec fn read_payloads_body(s: Seq<u8>, n: nat) -> Option<(Seq<PayloadView>, Seq<u8>)>
    decreases n,
{
    if n == 0 {
        Some((Seq::empty(), s))
    } else {
        match read_payload(s) {
            None => None,
            Some((p, rest)) => match read_payloads_body(rest, (n - 1) as nat) {
                None => None,
                Some((ps, last)) => Some((seq![p] + ps, last)),
            },
        }
    }
}

/// A task, written down: its id, the number of its payloads, then each of
/// them.
pub open spec fn task_bytes(t: TaskView) -> Seq<u8> {
    t.id + len_bytes(t.payload.len()) + payloads_body(t.payload)
}

/// Whether a task can be written down.
pub open spec fn task_fits(t: TaskView) -> bool {
    &&& t.id.len() == ID_LEN
    &&& fits(t.payload.len())
    &&& forall|i: int| 0 <= i < t.payload.len() ==> payload_fits(#[trigger] t.payload[i])
}

/// Reads a task from the front of `s`.
pub open spec fn read_task(s: Seq<u8>) -> Option<(TaskView, Seq<u8>)> {
    match read_exact(s, ID_LEN as nat) {
        None => None,
        Some((id, rest)) => match read_len(rest) {
            None => None,
            Some((n, body)) => match read_payloads_body(body, n) {
                None => None,
                Some((payload, last)) => Some((TaskView { id, payload }, last)),
            },
        },
    }
}

/// What `Task::decode` makes of bytes: the task that they are the encoding
/// of, to the last byte.
pub open spec fn task_of_bytes(s: Seq<u8>) -> Result<TaskView, ErrorView> {
    match read_task(s) {
        Some((task, rest)) => if rest.len() == 0 {
            Ok(task)
        } else {
            Err(ErrorView::Codec)
        },
        None => Err(ErrorView::Codec),
    }
}

/// A payload that was written is read back, and what follows it is left.
pub proof fn lemma_read_payload(p: PayloadView, rest: Seq<u8>)
    requires
        payload_fits(p),
    ensures
        read_payload(payload_bytes(p) + rest) == Some((p, rest)),
{
    let s = payload_bytes(p) + rest;
    match p {
        PayloadView::Shell { user, script } => {
            let after = text(script) + rest;
            assert(s.subrange(1, s.len() as int) =~= text(user) + after);
            lemma_read_text(user, after);
            lemma_read_text(script, rest);
        },
        PayloadView::File { path, body } => {
            let after = blob(body) + rest;
            assert(s.subrange(1, s.len() as int) =~= text(path) + after);
            lemma_read_text(path, after);
            lemma_read_blob(body, rest);
        },
    }
}

/// The payloads that were written are read back.
pub proof fn lemma_read_payloads_body(ps: Seq<PayloadView>, rest: Seq<u8>)
    requires
        forall|i: int| 0 <= i < ps.len() ==> payload_fits(#[trigger] ps[i]),
    ensures
        read_payloads_body(payloads_body(ps) + rest, ps.len()) == Some((ps, rest)),
    decreases ps.len(),
{
    if ps.len() == 0 {
        assert(payloads_body(ps) + rest =~= rest);
        assert(ps =~= Seq::empty());
    } else {
        let tail = ps.drop_first();
        let after = payloads_body(tail) + rest;
        assert(payloads_body(ps) + rest =~= payload_bytes(ps[0]) + after);
        assert(payload_fits(ps[0]));
        lemma_read_payload(ps[0], after);
        assert forall|i: int| 0 <= i < tail.len() implies payload_fits(#[trigger] tail[i]) by {
            assert(tail[i] == ps[i + 1]);
        }
        lemma_read_payloads_body(tail, rest);
        assert(seq![ps[0]] + tail =~= ps);
    }
}

/// A task that was written is read back, and what follows it is left.
pub proof fn lemma_read_task(t: TaskView, rest: Seq<u8>)
    requires
        task_fits(t),
    ensures
        read_task(task_bytes(t) + rest) == Some((t, rest)),
{
    let body = payloads_body(t.payload) + rest;
    let after = len_bytes(t.payload.len()) + body;
    assert(task_bytes(t) + rest =~= t.id + after);
    lemma_read_exact(t.id, after);
    lemma_read_len(t.payload.len(), body);
    lemma_read_payloads_body(t.payload, rest);
}

/// Encoding then decoding a task gives the task back.
pub proof fn lemma_task_round_trip(t: TaskView)
    requires
        task_fits(t),
    ensures
        task_of_bytes(task_bytes(t)) == Ok::<TaskView, ErrorView>(t),
{
    lemma_read_task(t, Seq::empty());
    assert(task_bytes(t) + Seq::<u8>::empty() =~= task_bytes(t));
}

/// A payload that was read had been written.
pub proof fn lemma_payload_was_written(s: Seq<u8>)
    ensures
        read_payload(s) matches Some((p, rest)) ==> payload_fits(p) && s == payload_bytes(p)
            + rest,
{
    if s.len() >= 1 {
        let fields = s.subrange(1, s.len() as int);
        assert(s =~= seq![s[0]] + fields);
        lemma_text_was_written(fields);
        if let Some((first, after)) = read_text(fields) {
            lemma_text_was_written(after);
            lemma_blob_was_written(after);
            if let Some((p, rest)) = read_payload(s) {
                assert(s =~= payload_bytes(p) + rest);
            }
        }
    }
}

/// The payloads that were read had been written.
pub proof fn lemma_payloads_body_was_written(s: Seq<u8>, n: nat)
    ensures
        read_payloads_body(s, n) matches Some((ps, rest)) ==> {
            &&& ps.len() == n
            &&& forall|i: int| 0 <= i < ps.len() ==> payload_fits(#[trigger] ps[i])
            &&& s == payloads_body(ps) + rest
        },
    decreases n,
{
    if n == 0 {
        assert(s =~= payloads_body(Seq::empty()) + s);
    } else {
        lemma_payload_was_written(s);
        if let Some((p, after)) = read_payload(s) {
            lemma_payloads_body_was_written(after, (n - 1) as nat);
            if let Some((more, rest)) = read_payloads_body(after, (n - 1) as nat) {
                let ps = seq![p] + more;
                assert(ps.drop_first() =~= more);
                assert(s =~= payloads_body(ps) + rest);
                assert forall|i: int| 0 <= i < ps.len() implies payload_fits(
                    #[trigger] ps[i],
                ) by {
                    if i > 0 {
                        assert(ps[i] == more[i - 1]);
                    }
                }
            }
        }
    }
}

/// A task that was read had been written.
pub proof fn lemma_task_was_written(s: Seq<u8>)
    ensures
        read_task(s) matches Some((t, rest)) ==> task_fits(t) && s == task_bytes(t) + rest,
{
    lemma_exact_was_written(s, ID_LEN as nat);
    if let Some((id, after)) = read_exact(s, ID_LEN as nat) {
        lemma_len_was_written(after);
        if let Some((n, body)) = read_len(after) {
            lemma_payloads_body_was_written(body, n);
            if let Some((payload, rest)) = read_payloads_body(body, n) {
                assert(s =~= task_bytes(TaskView { id, payload }) + rest);
            }
        }
    }
}

/// Bytes are read as a task only if they are the task's encoding: decoding
/// then encoding gives the bytes back.
pub proof fn lemma_task_bytes_exact(s: Seq<u8>)
    ensures
        task_of_bytes(s) matches Ok(t) ==> task_fits(t) && task_bytes(t) == s,
{
    lemma_task_was_written(s);
    if let Some((t, rest)) = read_task(s) {
        if rest.len() == 0 {
            assert(task_bytes(t) + rest =~= task_bytes(t));
        }
    }
}

impl TaskId {
    /// The id made of the first 16 bytes of `bytes`.
    pub fn from_bytes(bytes: &[u8]) -> (id: TaskId)
        requires
            bytes@.len() >= ID_LEN,
        ensures
            id@ == bytes@.subrange(0, ID_LEN as int),
    {
        let mut raw: [u8; 16] = [0u8; 16];
        let mut i: usize = 0;
        while i < ID_LEN
            invariant
                i <= ID_LEN,
                bytes@.len() >= ID_LEN,
                forall|j: int| 0 <= j < i ==> raw@[j] == bytes@[j],
            decreases ID_LEN - i,
        {
            raw[i] = bytes[i];
            i += 1;
        }
        assert(raw@ =~= bytes@.subrange(0, ID_LEN as int));
        TaskId(raw)
    }
}

impl Payload {
    /// Appends the payload's encoding to a buffer.
    pub fn put(&self, out: &mut Vec<u8>)
        ensures
            final(out)@ == old(out)@ + payload_bytes(self@),
            payload_fits(self@),
    {
        match self {
            Payload::Shell { user, script } => {
                out.push(TAG_SHELL);
                put_text(out, user.as_str());
                put_text(out, script.as_str());
                assert(out@ =~= old(out)@ + payload_bytes(self@));
            },
            Payload::File { path, body } => {
                out.push(TAG_FILE);
                put_text(out, path.as_str());
                put_blob(out, body.as_slice());
                assert(out@ =~= old(out)@ + payload_bytes(self@));
            },
        }
    }

    /// Reads a payload at `pos`; hands back the payload and where it ends.
    pub fn get(buf: &[u8], pos: usize) -> (r: Option<(Payload, usize)>)
        requires
            pos <= buf@.len(),
        ensures
            match r {
                None => read_payload(tail(buf@, pos as int)) is None,
                Some((p, end)) => pos <= end <= buf@.len() && read_payload(tail(buf@, pos as int))
                    == Some((p@, tail(buf@, end as int))),
            },
    {
        if pos >= buf.len() {
            return None;
        }
        let tag = buf[pos];
        proof {
            let s = tail(buf@, pos as int);
            assert(s[0] == tag);
            assert(s.subrange(1, s.len() as int) =~= tail(buf@, pos + 1));
        }
        if tag == TAG_SHELL {
            let (user, at) = match get_text(buf, pos + 1) {
                None => { return None; },
                Some(found) => found,
            };
            let (script, end) = match get_text(buf, at) {
                None => { return None; },
                Some(found) => found,
            };
            Some((Payload::Shell { user, script }, end))
        } else if tag == TAG_FILE {
            let (path, at) = match get_text(buf, pos + 1) {
                None => { return None; },
                Some(found) => found,
            };
            let (body, end) = match get_blob(buf, at) {
                None => { return None; },
                Some(found) => found,
            };
            Some((Payload::File { path, body }, end))
        } else {
            None
        }
    }
}

impl Task {
    /// Appends the task's encoding to a buffer.
    pub fn put(&self, out: &mut Vec<u8>)
        ensures
            final(out)@ == old(out)@ + task_bytes(self@),
            task_fits(self@),
    {
        let ghost all = self.payload.deep_view();
        put_bytes(out, self.id.0.as_slice());
        put_len(out, self.payload.len());
        let ghost head = out@;
        assert(all.skip(0) =~= all);
        let mut i: usize = 0;
        while i < self.payload.len()
            invariant
                i <= self.payload.len(),
                all == self.payload.deep_view(),
                out@ + payloads_body(all.skip(i as int)) == head + payloads_body(all),
                forall|j: int| 0 <= j < i ==> payload_fits(#[trigger] all[j]),
            decreases self.payload.len() - i,
        {
            let ghost before = out@;
            self.payload[i].put(out);
            proof {
                let rest = all.skip(i as int);
                assert(rest[0] == self.payload@[i as int]@);
                assert(rest.drop_first() =~= all.skip(i + 1));
                assert(out@ + payloads_body(all.skip(i + 1)) =~= before + payloads_body(rest));
            }
            i += 1;
        }
        proof {
            assert(all.skip(i as int) =~= Seq::<PayloadView>::empty());
            assert(out@ =~= old(out)@ + task_bytes(self@));
        }
    }

    /// Reads a task at `pos`; hands back the task and where it ends.
    pub fn get(buf: &[u8], pos: usize) -> (r: Option<(Task, usize)>)
        requires
            pos <= buf@.len(),
        ensures
            match r {
                None => read_task(tail(buf@, pos as int)) is None,
                Some((t, end)) => pos <= end <= buf@.len() && read_task(tail(buf@, pos as int))
                    == Some((t@, tail(buf@, end as int))),
            },
    {
        let (raw, after_id) = match get_exact(buf, pos, ID_LEN) {
            None => { return None; },
            Some(found) => found,
        };
        let id = TaskId::from_bytes(raw.as_slice());
        assert(id@ =~= raw@);
        let (n, start) = match get_len(buf, after_id) {
            None => { return None; },
            Some(found) => found,
        };
        let mut payload: Vec<Payload> = Vec::new();
        let mut at: usize = start;
        let mut i: u64 = 0;
        assert(payload.deep_view() =~= Seq::<PayloadView>::empty());
        while i < n
            invariant
                i <= n,
                pos <= start <= at <= buf@.len(),
                read_task(tail(buf@, pos as int)) == match read_payloads_body(
                    tail(buf@, start as int),
                    n as nat,
                ) {
                    None => None,
                    Some((ps, last)) => Some((TaskView { id: id@, payload: ps }, last)),
                },
                read_payloads_body(tail(buf@, start as int), n as nat) == match read_payloads_body(
                    tail(buf@, at as int),
                    (n - i) as nat,
                ) {
                    None => None,
                    Some((more, last)) => Some((payload.deep_view() + more, last)),
                },
            decreases n - i,
        {
            let ghost before = payload.deep_view();
            match Payload::get(buf, at) {
                None => {
                    assert(read_payloads_body(tail(buf@, at as int), (n - i) as nat) is None);
                    return None;
                },
                Some((p, end)) => {
                    payload.push(p);
                    proof {
                        let held = payload.deep_view();
                        assert(held =~= before + seq![p@]);
                        match read_payloads_body(tail(buf@, end as int), (n - i - 1) as nat) {
                            None => {},
                            Some((more, last)) => {
                                assert(before + (seq![p@] + more) =~= held + more);
                            },
                        }
                    }
                    at = end;
                },
            }
            i += 1;
        }
        proof {
            assert(payload.deep_view() + Seq::<PayloadView>::empty() =~= payload.deep_view());
        }
        Some((Task { id, payload }, at))
    }

    /// The task as the bytes that go over the wire.
    pub fn encode(&self) -> (r: Vec<u8>)
        ensures
            r@ == task_bytes(self@),
            task_fits(self@),
    {
        let mut out: Vec<u8> = Vec::new();
        self.put(&mut out);
        assert(out@ =~= task_bytes(self@));
        out
    }

    /// Reads a task from the bytes that came over the wire.
    pub fn decode(buf: &[u8]) -> (r: Result<Task, Error>)
        ensures
            plain(r) == task_of_bytes(buf@),
    {
        assert(tail(buf@, 0) =~= buf@);
        match Task::get(buf, 0) {
            None => Err(Error::Codec),
            Some((task, end)) => {
                if end == buf.len() {
                    Ok(task)
                } else {
                    Err(Error::Codec)
                }
            },
        }
    }
}

/// What the system is asked to do for one payload.
#[derive(Debug, PartialEq, Eq)]
pub enum Action {
    /// Run a program with these arguments and collect what it prints.
    Run { program: String, args: Vec<String> },
    /// Make sure that `directory` exists, where there is one, then write
    /// `body` to the file at `path`, replacing what the file held.
    Write { directory: Option<String>, path: String, body: Vec<u8> },
}

/// An action as a plain value.
pub enum ActionView {
    Run { program: Seq<char>, args: Seq<Seq<char>> },
    Write { directory: Option<Seq<char>>, path: Seq<char>, body: Seq<u8> },
}

impl View for Action {
    type V = ActionView;

    open spec fn view(&self) -> ActionView {
        match self {
            Action::Run { program, args } => ActionView::Run {
                program: program@,
                args: args.deep_view(),
            },
            Action::Write { directory, path, body } => ActionView::Write {
                directory: directory.deep_view(),
                path: path@,
                body: body@,
            },
        }
    }
}

impl DeepView for Action {
    type V = ActionView;

    open spec fn deep_view(&self) -> ActionView {
        self@
    }
}

/// What the system did for one payload.
#[derive(Debug, PartialEq, Eq)]
pub enum Outcome {
    /// The program ran: how it ended, in the system's words, and what it
    /// printed.
    Ran { status: String, stdout: Vec<u8>, stderr: Vec<u8> },
    /// The file is written.
    Written,
    /// The system could not do it; the text is its message.
    Failed(String),
}

/// An outcome as a plain value.
pub enum OutcomeView {
    Ran { status: Seq<char>, stdout: Seq<u8>, stderr: Seq<u8> },
    Written,
    Failed(Seq<char>),
}

impl View for Outcome {
    type V = OutcomeView;

    open spec fn view(&self) -> OutcomeView {
        match self {
            Outcome::Ran { status, stdout, stderr } => OutcomeView::Ran {
                status: status@,
                stdout: stdout@,
                stderr: stderr@,
            },
            Outcome::Written => OutcomeView::Written,
            Outcome::Failed(message) => OutcomeView::Failed(message@),
        }
    }
}

impl DeepView for Outcome {
    type V = OutcomeView;

    open spec fn deep_view(&self) -> OutcomeView {
        self@
    }
}

/// The directory that `std::path::Path::parent` gives for `path`, `None`
/// where it gives none.
pub uninterp spec fn parent_text(path: Seq<char>) -> Option<Seq<char>>;

/// `std::path::Path::parent` on text: the path without its last component,
/// `None` for a root and for the empty path. The result is a function of the
/// path alone; it is named.
#[verifier::external_body]
fn parent(path: &str) -> (r: Option<String>)
    ensures
        r.deep_view() == parent_text(path@),
{
    match std::path::Path::new(path).parent() {
        Some(directory) => Some(directory.to_string_lossy().into_owned()),
        None => None,
    }
}

/// `uuid::Uuid::new_v4`, as bytes: a random id that is marked as random and
/// as a variant of RFC 4122.
#[verifier::external_body]
fn uuid_v4() -> (r: [u8; 16])
    ensures
        r@[6] / 16 == 4,
        r@[8] / 64 == 2,
{
    *uuid::Uuid::new_v4().as_bytes()
}

/// What the system is asked to do for a payload: a script is handed to `su`,
/// which runs it as the user; a file is written after its directory is there.
pub open spec fn action_of(p: PayloadView) -> ActionView {
    match p {
        PayloadView::Shell { user, script } => ActionView::Run {
            program: "su"@,
            args: seq!["-"@, user, "-c"@, script],
        },
        PayloadView::File { path, body } => ActionView::Write {
            directory: parent_text(path),
            path,
            body,
        },
    }
}

/// What is reported of a program that ran.
pub open spec fn shell_text(status: Seq<char>, stdout: Seq<u8>, stderr: Seq<u8>) -> Seq<char> {
    "status: "@ + status + " \nstdout: "@ + lossy_text(stdout) + " \nstderr: "@ + lossy_text(
        stderr,
    )
}

/// What carrying out one payload comes to: the text to report, if any, or
/// the failure. Only a script that ran has something to report; how it ended
/// is part of the text and no failure.
pub open spec fn diagnostic(p: PayloadView, o: OutcomeView) -> Result<
    Option<Seq<char>>,
    ErrorView,
> {
    match o {
        OutcomeView::Failed(message) => Err(ErrorView::Execution(message)),
        OutcomeView::Written => Ok(None),
        OutcomeView::Ran { status, stdout, stderr } => match p {
            PayloadView::Shell { .. } => Ok(Some(shell_text(status, stdout, stderr))),
            PayloadView::File { .. } => Ok(None),
        },
    }
}

/// The report of the first `n` payloads, each text on a line of its own, or
/// the first failure among them.
pub open spec fn progress(ps: Seq<PayloadView>, os: Seq<OutcomeView>, n: nat) -> Result<
    Seq<char>,
    ErrorView,
>
    decreases n,
{
    if n == 0 {
        Ok(Seq::empty())
    } else {
        match progress(ps, os, (n - 1) as nat) {
            Err(e) => Err(e),
            Ok(report) => match diagnostic(ps[n - 1], os[n - 1]) {
                Err(e) => Err(e),
                Ok(None) => Ok(report),
                Ok(Some(text)) => Ok(report + "\n"@ + text),
            },
        }
    }
}

/// How many payloads have an outcome.
pub open spec fn carried_out(ps: Seq<PayloadView>, os: Seq<OutcomeView>) -> nat {
    if os.len() <= ps.len() {
        os.len()
    } else {
        ps.len()
    }
}

/// What carrying out a task has come to, given the outcomes of its payloads
/// so far, in order: the report, or the first failure.
pub open spec fn executed(ps: Seq<PayloadView>, os: Seq<OutcomeView>) -> Result<
    Seq<char>,
    ErrorView,
> {
    progress(ps, os, carried_out(ps, os))
}

/// What is to be done next for a task: the action of the first payload
/// without an outcome; nothing once a payload has failed or all are done.
pub open spec fn next_action(ps: Seq<PayloadView>, os: Seq<OutcomeView>) -> Option<ActionView> {
    if executed(ps, os) is Err || os.len() >= ps.len() {
        None
    } else {
        Some(action_of(ps[os.len() as int]))
    }
}

/// The first `n` payloads have failed exactly if one of their outcomes is a
/// failure.
pub proof fn lemma_progress_fails(ps: Seq<PayloadView>, os: Seq<OutcomeView>, n: nat)
    ensures
        progress(ps, os, n) is Err <==> exists|i: int| 0 <= i < n && #[trigger] os[i] is Failed,
    decreases n,
{
    if n > 0 {
        lemma_progress_fails(ps, os, (n - 1) as nat);
        if progress(ps, os, n) is Err {
            if progress(ps, os, (n - 1) as nat) is Err {
                let i = choose|i: int| 0 <= i < n - 1 && #[trigger] os[i] is Failed;
                assert(os[i] is Failed);
            } else {
                assert(os[n - 1] is Failed);
            }
        } else {
            assert forall|i: int| 0 <= i < n implies !(#[trigger] os[i] is Failed) by {
                if i < n - 1 {
                }
            }
        }
    }
}

/// A failure among the first payloads is the failure of the task.
pub proof fn lemma_progress_stays(ps: Seq<PayloadView>, os: Seq<OutcomeView>, k: nat, n: nat)
    requires
        k <= n,
        progress(ps, os, k) is Err,
    ensures
        progress(ps, os, n) == progress(ps, os, k),
    decreases n,
{
    if k < n {
        lemma_progress_stays(ps, os, k, (n - 1) as nat);
    }
}

/// A task as a user's id shows it: hexadecimal, in groups of 8, 4, 4, 4 and
/// 12 digits.
pub open spec fn id_text(id: Seq<u8>) -> Seq<char> {
    hex(id.subrange(0, 4)) + "-"@ + hex(id.subrange(4, 6)) + "-"@ + hex(id.subrange(6, 8)) + "-"@
        + hex(id.subrange(8, 10)) + "-"@ + hex(id.subrange(10, 16))
}

/// How a payload is shown.
pub open spec fn payload_text(p: PayloadView) -> Seq<char> {
    match p {
        PayloadView::Shell { user, script } => "shell "@ + user + "\n"@ + script,
        PayloadView::File { path, body } => "file "@ + path + ", "@ + decimal(body.len())
            + " bytes"@,
    }
}

/// How the payloads of a task are shown, each between two rules.
pub open spec fn payloads_text(ps: Seq<PayloadView>) -> Seq<char>
    decreases ps.len(),
{
    if ps.len() == 0 {
        Seq::empty()
    } else {
        payloads_text(ps.drop_last()) + "------\n"@ + payload_text(ps.last()) + "\n------\n"@
    }
}

/// How a task is shown.
pub open spec fn task_text(t: TaskView) -> Seq<char> {
    "==="@ + id_text(t.id) + "===\n"@ + payloads_text(t.payload) + "======"@
}

impl TaskId {
    /// A new id, made at random.
    pub fn generate() -> (id: TaskId)
        ensures
            id@.len() == ID_LEN,
            id@[6] / 16 == 4,
            id@[8] / 64 == 2,
    {
        TaskId(uuid_v4())
    }

    /// The id as text.
    pub fn to_string(&self) -> (r: String)
        ensures
            r@ == id_text(self@),
    {
        let mut out = String::new();
        let raw = self.0.as_slice();
        push_hex(&mut out, raw, 0, 4);
        out.append("-");
        push_hex(&mut out, raw, 4, 6);
        out.append("-");
        push_hex(&mut out, raw, 6, 8);
        out.append("-");
        push_hex(&mut out, raw, 8, 10);
        out.append("-");
        push_hex(&mut out, raw, 10, 16);
        assert(out@ =~= id_text(self@));
        out
    }

    /// Whether two ids are the same.
    pub fn same(&self, other: &TaskId) -> (r: bool)
        ensures
            r == (self@ == other@),
    {
        crate::text::same_bytes(self.0.as_slice(), other.0.as_slice())
    }
}

impl Payload {
    /// What the system is asked to do for the payload.
    pub fn action(&self) -> (r: Action)
        ensures
            r@ == action_of(self@),
    {
        match self {
            Payload::Shell { user, script } => {
                let mut args: Vec<String> = Vec::new();
                args.push("-".to_owned());
                args.push(user.clone());
                args.push("-c".to_owned());
                args.push(script.clone());
                assert(args.deep_view() =~= seq!["-"@, user@, "-c"@, script@]);
                Action::Run { program: "su".to_owned(), args }
            },
            Payload::File { path, body } => Action::Write {
                directory: parent(path.as_str()),
                path: path.clone(),
                body: slice_to_vec(body.as_slice()),
            },
        }
    }

    /// What carrying out the payload came to, given what the system did: the
    /// text to report, if any, or the failure.
    pub fn execute(&self, outcome: &Outcome) -> (r: Result<Option<String>, Error>)
        ensures
            plain(r) == diagnostic(self@, outcome@),
    {
        match outcome {
            Outcome::Failed(message) => Err(Error::Execution(message.clone())),
            Outcome::Written => Ok(None),
            Outcome::Ran { status, stdout, stderr } => match self {
                Payload::Shell { .. } => {
                    let mut out = "status: ".to_owned();
                    out.append(status.as_str());
                    out.append(" \nstdout: ");
                    out.append(from_utf8_lossy(stdout.as_slice()).as_str());
                    out.append(" \nstderr: ");
                    out.append(from_utf8_lossy(stderr.as_slice()).as_str());
                    Ok(Some(out))
                },
                Payload::File { .. } => Ok(None),
            },
        }
    }

    /// The payload as text, for a log.
    pub fn to_string(&self) -> (r: String)
        ensures
            r@ == payload_text(self@),
    {
        match self {
            Payload::Shell { user, script } => {
                let mut out = "shell ".to_owned();
                out.append(user.as_str());
                out.append("\n");
                out.append(script.as_str());
                out
            },
            Payload::File { path, body } => {
                let mut out = "file ".to_owned();
                out.append(path.as_str());
                out.append(", ");
                push_decimal(&mut out, body.len() as u64);
                out.append(" bytes");
                out
            },
        }
    }
}

impl Task {
    /// A task with a new id.
    pub fn new(payload: Vec<Payload>) -> (r: Task)
        ensures
            r@.payload == payload.deep_view(),
            r@.id.len() == ID_LEN,
    {
        Task { id: TaskId::generate(), payload }
    }

    /// What carrying out the task has come to, given what the system did for
    /// its payloads so far, in order: the report, or the first failure.
    pub fn execute(&self, outcomes: &Vec<Outcome>) -> (r: Result<String, Error>)
        ensures
            plain(r) == executed(self@.payload, outcomes.deep_view()),
    {
        let ghost ps = self@.payload;
        let ghost os = outcomes.deep_view();
        let n = if outcomes.len() <= self.payload.len() {
            outcomes.len()
        } else {
            self.payload.len()
        };
        let mut buf = String::new();
        let mut i: usize = 0;
        while i < n
            invariant
                i <= n,
                n <= self.payload.len(),
                n <= outcomes.len(),
                n == carried_out(ps, os),
                ps == self.payload.deep_view(),
                os == outcomes.deep_view(),
                progress(ps, os, i as nat) == Ok::<Seq<char>, ErrorView>(buf@),
            decreases n - i,
        {
            let ghost before = buf@;
            match self.payload[i].execute(&outcomes[i]) {
                Err(e) => {
                    proof {
                        assert(progress(ps, os, (i + 1) as nat) == Err::<Seq<char>, ErrorView>(e@));
                        lemma_progress_stays(ps, os, (i + 1) as nat, n as nat);
                    }
                    return Err(e);
                },
                Ok(None) => {},
                Ok(Some(text)) => {
                    buf.append("\n");
                    buf.append(text.as_str());
                },
            }
            assert(progress(ps, os, (i + 1) as nat) == Ok::<Seq<char>, ErrorView>(buf@));
            i += 1;
        }
        Ok(buf)
    }

    /// What is to be done next, given what the system did for the payloads
    /// so far: nothing once a payload has failed or all are done.
    pub fn next(&self, outcomes: &Vec<Outcome>) -> (r: Option<Action>)
        ensures
            r.deep_view() == next_action(self@.payload, outcomes.deep_view()),
    {
        let ghost ps = self@.payload;
        let ghost os = outcomes.deep_view();
        let n = if outcomes.len() <= self.payload.len() {
            outcomes.len()
        } else {
            self.payload.len()
        };
        proof {
            lemma_progress_fails(ps, os, n as nat);
        }
        let mut i: usize = 0;
        while i < n
            invariant
                i <= n,
                n <= outcomes.len(),
                n == carried_out(ps, os),
                ps == self@.payload,
                os == outcomes.deep_view(),
                forall|j: int| 0 <= j < i ==> !(#[trigger] os[j] is Failed),
            decreases n - i,
        {
            match &outcomes[i] {
                Outcome::Failed(_) => {
                    proof {
                        assert(os[i as int] is Failed);
                        lemma_progress_fails(ps, os, n as nat);
                    }
                    return None;
                },
                _ => {},
            }
            i += 1;
        }
        if outcomes.len() >= self.payload.len() {
            None
        } else {
            Some(self.payload[outcomes.len()].action())
        }
    }

    /// The task as text, for a log.
    pub fn to_string(&self) -> (r: String)
        ensures
            r@ == task_text(self@),
    {
        let ghost ps = self@.payload;
        let mut out = "===".to_owned();
        out.append(self.id.to_string().as_str());
        out.append("===\n");
        let ghost head = out@;
        let mut i: usize = 0;
        assert(ps.take(0) =~= Seq::<PayloadView>::empty());
        assert(out@ =~= head + payloads_text(ps.take(0)));
        while i < self.payload.len()
            invariant
                i <= self.payload.len(),
                ps == self.payload.deep_view(),
                out@ == head + payloads_text(ps.take(i as int)),
            decreases self.payload.len() - i,
        {
            let ghost before = out@;
            out.append("------\n");
            out.append(self.payload[i].to_string().as_str());
            out.append("\n------\n");
            proof {
                let upto = ps.take(i + 1);
                assert(upto.drop_last() =~= ps.take(i as int));
                assert(upto.last() == self.payload@[i as int]@);
                assert(out@ =~= head + payloads_text(upto));
            }
            i += 1;
        }
        assert(ps.take(i as int) =~= ps);
        out.append("======");
        assert(out@ =~= task_text(self@));
        out
    }
}

} // verus!
