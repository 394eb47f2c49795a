//! The slots of the cgroup tree, and who gets one.
use vstd::prelude::*;

use crate::runtime::{validate_service_id, IoFailure, IoKind, RuntimeContext};

verus! {

/// One entry of a directory.
#[derive(Debug)]
pub struct DirEntry {
    /// The name, unless it is no text.
    pub name: Option<String>,
    pub is_dir: bool,
}

impl DirEntry {
    /// Whether the entry is the directory of a service.
    pub open spec fn is_service(&self) -> bool {
        self.is_dir && (self.name matches Some(n) && crate::runtime::is_service_id(n@))
    }
}

/// How many of `entries` are directories of services.
pub open spec fn services_in(entries: Seq<DirEntry>) -> nat
    decreases entries.len(),
{
    if entries.len() == 0 {
        0
    } else {
        services_in(entries.drop_last()) + if entries.last().is_service() {
            1nat
        } else {
            0nat
        }
    }
}

/// The slots in use: the directories of services, as far as they can be counted.
pub open spec fn slots_used(listing: Option<Result<Vec<DirEntry>, IoFailure>>) -> Result<
    u32,
    IoFailure,
> {
    match listing {
        None => Ok(0),
        Some(Err(e)) => Err(e),
        Some(Ok(entries)) => if services_in(entries@) <= u32::MAX {
            Ok(services_in(entries@) as u32)
        } else {
            Ok(u32::MAX)
        },
    }
}

/// The name under which an entry is a service.
pub(crate) fn service_entry(entry: &DirEntry) -> (r: Option<&String>)
    ensures
        match r {
            Some(n) => entry.is_service() && entry.name == Some(*n),
            None => !entry.is_service(),
        },
{
    if !entry.is_dir {
        return None;
    }
    match &entry.name {
        None => None,
        Some(n) => {
            match validate_service_id(n.as_str()) {
                Ok(()) => Some(n),
                Err(_) => None,
            }
        },
    }
}

/// Counts the slots in use. `listing` is `None` if there is no directory of services yet.
pub fn count_supervised_service_dirs(
    listing: Option<Result<Vec<DirEntry>, IoFailure>>,
) -> (r: Result<u32, IoFailure>)
    ensures
        r == slots_used(listing),
{
    match listing {
        None => Ok(0),
        Some(Err(e)) => Err(e),
        Some(Ok(entries)) => {
            let mut n: u32 = 0;
            let mut i: usize = 0;
            assert(entries@.take(0) == Seq::<DirEntry>::empty());
            while i < entries.len()
                invariant
                    i <= entries.len(),
                    n == if services_in(entries@.take(i as int)) <= u32::MAX {
                        services_in(entries@.take(i as int))
                    } else {
                        u32::MAX as nat
                    },
                decreases entries.len() - i,
            {
                assert(entries@.take(i + 1).drop_last() == entries@.take(i as int));
                if service_entry(&entries[i]).is_some() {
                    n = n.saturating_add(1);
                }
                i += 1;
            }
            assert(entries@.take(entries@.len() as int) == entries@);
            Ok(n)
        },
    }
}

/// Why a service got no slot.
#[derive(Debug)]
pub enum StartCgroupError {
    AtCapacity { used: u32, max: u32 },
    Mkdir(IoFailure),
}

/// What is to be done for the slot of a service.
#[derive(Debug)]
pub enum StartCgroup {
    /// The service has its slot.
    Present,
    /// This directory is to be made.
    Create { path: String },
    Refused(StartCgroupError),
}

/// Whether `r` is the decision on a slot: an invalid id has none, an existing directory is
/// kept, and a new one is made only while fewer than `max_cgroups` are in use.
pub open spec fn slot_decided(
    rt: &RuntimeContext,
    service_name: Seq<char>,
    max_cgroups: u32,
    exists_already: bool,
    listing: Option<Result<Vec<DirEntry>, IoFailure>>,
    r: StartCgroup,
) -> bool {
    if !crate::runtime::is_service_id(service_name) {
        r matches StartCgroup::Refused(StartCgroupError::Mkdir(e)) && e.kind
            == IoKind::InvalidInput && e.message@ == "service id"@
    } else if exists_already {
        r is Present
    } else {
        match slots_used(listing) {
            Err(e) => r == StartCgroup::Refused(StartCgroupError::Mkdir(e)),
            Ok(used) => if used >= max_cgroups {
                r == StartCgroup::Refused(
                    StartCgroupError::AtCapacity { used, max: max_cgroups },
                )
            } else {
                r matches StartCgroup::Create { path } && path@ == rt.service_path(service_name)
            },
        }
    }
}

/// Decides on the slot of a service. The listing counts only if the directory of the
/// service does not exist already.
pub fn ensure_start_cgroup(
    rt: &RuntimeContext,
    service_name: &str,
    max_cgroups: u32,
    exists_already: bool,
    listing: Option<Result<Vec<DirEntry>, IoFailure>>,
) -> (r: StartCgroup)
    ensures
        slot_decided(rt, service_name@, max_cgroups, exists_already, listing, r),
{
    let path = match rt.service_cgroup_path(service_name) {
        Ok(p) => p,
        Err(_) => {
            let e = IoFailure { kind: IoKind::InvalidInput, message: "service id".to_owned() };
            return StartCgroup::Refused(StartCgroupError::Mkdir(e));
        },
    };
    if exists_already {
        return StartCgroup::Present;
    }
    match count_supervised_service_dirs(listing) {
        Err(e) => StartCgroup::Refused(StartCgroupError::Mkdir(e)),
        Ok(used) => {
            if used >= max_cgroups {
                StartCgroup::Refused(StartCgroupError::AtCapacity { used, max: max_cgroups })
            } else {
                StartCgroup::Create { path }
            }
        },
    }
}

/// Evaluates the making of the directory: one that has come up meanwhile is as good.
pub fn finish_start_cgroup(made: Result<(), IoFailure>) -> (r: Result<(), StartCgroupError>)
    ensures
        r == match made {
            Ok(()) => Ok::<(), StartCgroupError>(()),
            Err(e) => if e.kind == IoKind::AlreadyExists {
                Ok::<(), StartCgroupError>(())
            } else {
                Err::<(), StartCgroupError>(StartCgroupError::Mkdir(e))
            },
        },
{
    match made {
        Ok(()) => Ok(()),
        Err(e) => {
            if e.kind == IoKind::AlreadyExists {
                Ok(())
            } else {
                Err(StartCgroupError::Mkdir(e))
            }
        },
    }
}

/// Law: a directory is made only if the services that are there, with the new one, fit the
/// bound.
pub proof fn lemma_capacity_respected(
    rt: &RuntimeContext,
    service_name: Seq<char>,
    max_cgroups: u32,
    exists_already: bool,
    entries: Vec<DirEntry>,
    r: StartCgroup,
)
    requires
        slot_decided(rt, service_name, max_cgroups, exists_already, Some(Ok(entries)), r),
        r is Create,
    ensures
        services_in(entries@) + 1 <= max_cgroups,
{
}

} // verus!
