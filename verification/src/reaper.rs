//! The hooks of the sweep coordinator. They take note of nothing yet.
use vstd::prelude::*;

verus! {

/// Watches cgroups that are to be swept.
pub struct Reaper;

impl Reaper {
    pub fn new() -> (r: Reaper)
        ensures
            r == Reaper,
    {
        Reaper
    }

    /// Gets ready. Always succeeds.
    pub fn init(&mut self) -> (r: Result<(), String>)
        ensures
            r is Ok,
            *final(self) == *old(self),
    {
        Ok(())
    }

    /// Adds a cgroup. Always succeeds.
    pub fn register_cgroup(&mut self, _path: String, _name: String) -> (r: Result<(), String>)
        ensures
            r is Ok,
            *final(self) == *old(self),
    {
        Ok(())
    }

    /// The services that are ready to be swept: none.
    pub fn wait_for_sweep_ready(&mut self, _timeout_ms: u64) -> (r: Result<Vec<String>, String>)
        ensures
            r matches Ok(v) && v@.len() == 0,
            *final(self) == *old(self),
    {
        Ok(Vec::new())
    }

    /// Sweeps. Always succeeds.
    pub fn perform_sweep(&mut self, _ready: &[String]) -> (r: Result<(), String>)
        ensures
            r is Ok,
            *final(self) == *old(self),
    {
        Ok(())
    }
}

/// Version of the reaper.
pub fn reaper_version() -> (r: &'static str)
    ensures
        r@ == "0.1.0"@,
{
    "0.1.0"
}

} // verus!
