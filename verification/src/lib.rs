//! Fleet command and control: a master keeps a registry of agents,
//! authenticates them by their public keys and pushes tasks to them;
//! agents run the tasks and report back.
//!
//! The library holds what is decided and computed: keys and their files
//! (`key`), the messages and their encoding (`protocol`, `wire`), the
//! registry (`orm`), what the master does with a request (`master`), what an
//! agent does next (`agent`), and what a publisher sends (`publish`). Sockets,
//! files and processes belong to the program that uses the library: it hands
//! in what it received and carries out what it is handed.

pub mod agent;
pub mod errors;
pub mod key;
pub mod launcher;
pub mod master;
pub mod orm;
pub mod protocol;
pub mod publish;
pub mod text;
pub mod wire;

use vstd::prelude::*;

verus! {

/// The name of the project, as it stands in paths.
pub const NAME: &'static str = "axis";

/// The two ports of a master: tasks go out on one, requests come in on the
/// other.
#[derive(Clone, Copy, Debug, PartialEq, Eq)]
pub struct Port {
    pub publisher: u16,
    pub reporter: u16,
}

impl Port {
    /// The port of the publish channel.
    pub fn publisher(&self) -> (r: u16)
        ensures
            r == self.publisher,
    {
        self.publisher
    }

    /// The port of the reply channel.
    pub fn reporter(&self) -> (r: u16)
        ensures
            r == self.reporter,
    {
        self.reporter
    }
}

} // verus!
