//! The publisher: it asks the master to send a task to a group of agents.

pub mod models;

use vstd::prelude::*;
use vstd::string::*;

use crate::agent::task::Task;
use crate::master::Config;
use crate::protocol::{Request, RequestView};
use crate::publish::models::Group;
use crate::text::{decimal, push_decimal};

verus! {

/// The address of the reply channel of the master on this machine.
pub open spec fn local_url(port: int) -> Seq<char> {
    "tcp://localhost:"@ + decimal(port as nat)
}

/// The address that a publisher connects to.
pub fn url(cfg: &Config) -> (r: String)
    ensures
        r@ == local_url(cfg.port.reporter as int),
{
    let mut out = "tcp://localhost:".to_owned();
    push_decimal(&mut out, cfg.port.reporter() as u64);
    out
}

/// The request that asks for `task` to be sent to the agents of `group`,
/// under the master's secret.
pub fn request(cfg: &Config, group: Group, task: Task) -> (r: Request)
    ensures
        r@ == (RequestView::Publish {
            secret: cfg.secret@,
            agents: group.agents.deep_view(),
            task: task@,
        }),
{
    Request::Publish { secret: cfg.secret.clone(), agents: group.agents, task }
}

} // verus!
