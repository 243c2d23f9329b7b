//! What a publisher works from: groups of agents, and the definitions that
//! tasks are made of.
//!
//! A definition names a file. What the file holds, as it is or after it was
//! rendered as a template, is handed in by the caller; a definition and its
//! content come to one or more payloads.

use vstd::prelude::*;
use vstd::slice::*;
use vstd::string::*;
use vstd::utf8::*;

use crate::agent::task::{Payload, PayloadView};
use crate::errors::{plain, Error, ErrorView};
use crate::text::{from_utf8, octal, push_octal};

verus! {

/// The extension of a file that is a template.
pub const TEMPLATE_EXT: &'static str = "tera";

/// The user that owns what a task uploads.
pub const ROOT: &'static str = "root";

/// The agents that a task goes to, and what their templates are rendered
/// with.
#[derive(Debug, PartialEq, Eq)]
pub struct Group {
    pub agents: Vec<String>,
    pub environment: Vec<(String, String)>,
}

/// One step of a task's definition.
#[derive(Debug, PartialEq, Eq)]
pub enum Task {
    /// Run the script in `file` as `user`.
    Script { user: String, file: String },
    /// Put what `source` holds at `target`, then set its owner, its group
    /// and its mode, as far as they are given.
    Upload {
        source: String,
        target: String,
        owner: Option<String>,
        group: Option<String>,
        mode: Option<u32>,
    },
}

/// A step of a definition as a plain value.
pub enum TaskView {
    Script { user: Seq<char>, file: Seq<char> },
    Upload {
        source: Seq<char>,
        target: Seq<char>,
        owner: Option<Seq<char>>,
        group: Option<Seq<char>>,
        mode: Option<u32>,
    },
}

impl View for Task {
    type V = TaskView;

    open spec fn view(&self) -> TaskView {
        match self {
            Task::Script { user, file } => TaskView::Script { user: user@, file: file@ },
            Task::Upload { source, target, owner, group, mode } => TaskView::Upload {
                source: source@,
                target: target@,
                owner: owner.deep_view(),
                group: group.deep_view(),
                mode: *mode,
            },
        }
    }
}

impl DeepView for Task {
    type V = TaskView;

    open spec fn deep_view(&self) -> TaskView {
        self@
    }
}

/// A command that root runs on `target`.
pub open spec fn fix(command: Seq<char>, argument: Seq<char>, target: Seq<char>) -> PayloadView {
    PayloadView::Shell { user: "root"@, script: command + argument + " "@ + target }
}

/// The commands that set owner, group and mode, in this order, as far as
/// they are given.
pub open spec fn fixes(
    target: Seq<char>,
    owner: Option<Seq<char>>,
    group: Option<Seq<char>>,
    mode: Option<u32>,
) -> Seq<PayloadView> {
    let first = match owner {
        Some(name) => seq![fix("chown "@, name, target)],
        None => Seq::empty(),
    };
    let second = match group {
        Some(name) => seq![fix("chgrp "@, name, target)],
        None => Seq::empty(),
    };
    let third = match mode {
        Some(bits) => seq![fix("chmod "@, octal(bits as nat), target)],
        None => Seq::empty(),
    };
    first + second + third
}

/// The payloads that a step of a definition comes to, given what its file
/// holds. A script has to be text.
pub open spec fn payloads_of(task: TaskView, content: Seq<u8>) -> Result<
    Seq<PayloadView>,
    ErrorView,
> {
    match task {
        TaskView::Script { user, file } => if valid_utf8(content) {
            Ok(seq![PayloadView::Shell { user, script: decode_utf8(content) }])
        } else {
            Err(ErrorView::Codec)
        },
        TaskView::Upload { source, target, owner, group, mode } => Ok(
            seq![PayloadView::File { path: target, body: content }] + fixes(
                target,
                owner,
                group,
                mode,
            ),
        ),
    }
}

/// The payloads that the first `n` steps of a definition come to, one list
/// after the other, or the first failure.
pub open spec fn assembled(steps: Seq<(TaskView, Seq<u8>)>, n: nat) -> Result<
    Seq<PayloadView>,
    ErrorView,
>
    decreases n,
{
    if n == 0 {
        Ok(Seq::empty())
    } else {
        match assembled(steps, (n - 1) as nat) {
            Err(e) => Err(e),
            Ok(before) => match payloads_of(steps[n - 1].0, steps[n - 1].1) {
                Err(e) => Err(e),
                Ok(more) => Ok(before + more),
            },
        }
    }
}

/// A failure among the first steps is the failure of the whole.
pub proof fn lemma_assembled_stays(steps: Seq<(TaskView, Seq<u8>)>, k: nat, n: nat)
    requires
        k <= n,
        assembled(steps, k) is Err,
    ensures
        assembled(steps, n) == assembled(steps, k),
    decreases n,
{
    if k < n {
        lemma_assembled_stays(steps, k, (n - 1) as nat);
    }
}

impl Task {
    /// The file that the step needs, as the definition names it.
    pub fn file(&self) -> (r: &String)
        ensures
            r@ == match self@ {
                TaskView::Script { user, file } => file,
                TaskView::Upload { source, target, owner, group, mode } => source,
            },
    {
        match self {
            Task::Script { file, .. } => file,
            Task::Upload { source, .. } => source,
        }
    }
}

/// Appends a command that root runs on `target`.
fn push_fix(items: &mut Vec<Payload>, command: &str, argument: &str, target: &str)
    ensures
        final(items).deep_view() == old(items).deep_view().push(
            fix(command@, argument@, target@),
        ),
{
    let mut script = command.to_owned();
    script.append(argument);
    script.append(" ");
    script.append(target);
    items.push(Payload::Shell { user: ROOT.to_owned(), script });
    proof {
        reveal_strlit("root");
        assert(items.deep_view() =~= old(items).deep_view().push(
            fix(command@, argument@, target@),
        ));
    }
}

impl Payload {
    /// The payloads that a step of a definition comes to, given what its
    /// file holds.
    pub fn new(task: &Task, content: Vec<u8>) -> (r: Result<Vec<Payload>, Error>)
        ensures
            plain(r) == payloads_of(task@, content@),
    {
        let mut items: Vec<Payload> = Vec::new();
        match task {
            Task::Script { user, file } => match from_utf8(content) {
                None => Err(Error::Codec),
                Some(script) => {
                    items.push(Payload::Shell { user: user.clone(), script });
                    assert(items.deep_view() =~= seq![
                        PayloadView::Shell { user: user@, script: decode_utf8(content@) },
                    ]);
                    Ok(items)
                },
            },
            Task::Upload { source, target, owner, group, mode } => {
                let ghost body = content@;
                items.push(Payload::File { path: target.clone(), body: content });
                assert(items.deep_view() =~= seq![PayloadView::File { path: target@, body }]);
                if let Some(name) = owner {
                    push_fix(&mut items, "chown ", name.as_str(), target.as_str());
                }
                if let Some(name) = group {
                    push_fix(&mut items, "chgrp ", name.as_str(), target.as_str());
                }
                if let Some(bits) = mode {
                    let mut digits = String::new();
                    push_octal(&mut digits, *bits as u64);
                    assert(digits@ =~= octal(*bits as nat));
                    push_fix(&mut items, "chmod ", digits.as_str(), target.as_str());
                }
                assert(items.deep_view() =~= seq![PayloadView::File { path: target@, body }]
                    + fixes(target@, owner.deep_view(), group.deep_view(), *mode));
                Ok(items)
            },
        }
    }
}

/// The payloads of a task, from the steps of its definition, each with what
/// its file holds, in order.
pub fn payloads(steps: &Vec<(Task, Vec<u8>)>) -> (r: Result<Vec<Payload>, Error>)
    ensures
        plain(r) == assembled(steps.deep_view(), steps.len() as nat),
{
    let ghost all = steps.deep_view();
    let mut out: Vec<Payload> = Vec::new();
    let mut i: usize = 0;
    assert(out.deep_view() =~= Seq::<PayloadView>::empty());
    while i < steps.len()
        invariant
            i <= steps.len(),
            all == steps.deep_view(),
            assembled(all, i as nat) == Ok::<Seq<PayloadView>, ErrorView>(out.deep_view()),
        decreases steps.len() - i,
    {
        let ghost before = out.deep_view();
        let content = slice_to_vec(steps[i].1.as_slice());
        assert(all[i as int] == (steps@[i as int].0@, steps@[i as int].1@));
        match Payload::new(&steps[i].0, content) {
            Err(e) => {
                proof {
                    assert(assembled(all, (i + 1) as nat) is Err);
                    lemma_assembled_stays(all, (i + 1) as nat, steps.len() as nat);
                }
                return Err(e);
            },
            Ok(mut more) => {
                let ghost added = more.deep_view();
                out.append(&mut more);
                assert(out.deep_view() =~= before + added);
            },
        }
        i += 1;
    }
    Ok(out)
}

/// Where the definitions are: the project's directory under `/etc/lib` if
/// it is there, else `.etc` under the working directory.
pub fn root(installed: bool) -> (r: String)
    ensures
        r@ == if installed {
            "/etc/lib/axis"@
        } else {
            ".etc"@
        },
{
    if installed {
        "/etc/lib/axis".to_owned()
    } else {
        ".etc".to_owned()
    }
}

} // verus!
