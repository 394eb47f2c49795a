//! SysX: the decision logic of a deterministic cgroup supervisor.
use vstd::prelude::*;

pub mod boot;
pub mod broadcast_laws;
pub mod cgroup_ops;
pub mod cli;
pub mod control_laws;
pub mod control_plane;
pub mod core_bin;
pub mod core_laws;
pub mod dag;
pub mod dag_laws;
pub mod event_laws;
pub mod ipc;
pub mod ipc_laws;
pub mod message_laws;
pub mod name_laws;
pub mod names;
pub mod orchestration;
pub mod reactor;
pub mod reactor_laws;
pub mod reaper;
pub mod recovery;
pub mod runtime;
pub mod runtime_laws;
pub mod schema;
pub mod schema_laws;
pub mod schema_load;
pub mod service_spawn;
pub mod spawn_laws;
pub mod stop_ladder;
pub mod sweep;
pub mod sweep_laws;
pub mod terminal_broadcast;
pub mod text;
pub mod text_laws;
pub mod wire;

use crate::ipc::FrameError;
use crate::text::push_text;

verus! {

/// What can go wrong in the supervisor.
#[derive(Debug)]
pub enum SysXError {
    /// The boot sequence failed.
    Boot(String),
    /// The services cannot be put in an order.
    Dag(String),
    /// The event loop failed.
    Reactor(String),
    /// A control frame was refused.
    Ipc(FrameError),
}

impl From<FrameError> for SysXError {
    fn from(e: FrameError) -> (r: SysXError) {
        SysXError::Ipc(e)
    }
}

impl vstd::std_specs::convert::FromSpecImpl<FrameError> for SysXError {
    open spec fn obeys_from_spec() -> bool {
        true
    }

    open spec fn from_spec(e: FrameError) -> SysXError {
        SysXError::Ipc(e)
    }
}

impl SysXError {
    /// What [`SysXError::message`] says.
    pub open spec fn text(&self) -> Seq<char> {
        match self {
            SysXError::Boot(m) => "Boot failed: "@ + m@,
            SysXError::Dag(m) => "DAG validation failed: "@ + m@,
            SysXError::Reactor(m) => "Reactor error: "@ + m@,
            SysXError::Ipc(e) => "IPC error: "@ + e.text(),
        }
    }

    /// The error in words.
    pub fn message(&self) -> (r: String)
        ensures
            r@ == self.text(),
    {
        match self {
            SysXError::Boot(m) => {
                let mut r = "Boot failed: ".to_owned();
                push_text(&mut r, m.as_str());
                r
            },
            SysXError::Dag(m) => {
                let mut r = "DAG validation failed: ".to_owned();
                push_text(&mut r, m.as_str());
                r
            },
            SysXError::Reactor(m) => {
                let mut r = "Reactor error: ".to_owned();
                push_text(&mut r, m.as_str());
                r
            },
            SysXError::Ipc(e) => {
                let mut r = "IPC error: ".to_owned();
                let m = e.message();
                push_text(&mut r, m.as_str());
                r
            },
        }
    }
}

} // verus!
