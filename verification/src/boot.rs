//! The boot sequence: what is accepted of the sealed artifact, and in which time.
use vstd::prelude::*;

use crate::core_bin::CORE_BIN_BYTES;
use crate::runtime::IoFailure;
use crate::text::{decimal_string, push_text};
use crate::SysXError;

verus! {

pub const WATCHDOG_PATH: &'static str = "/dev/watchdog";

pub const CORE_BIN_PATH: &'static str = "/etc/sysx/core.bin";

pub const CONTROL_SOCKET_PATH: &'static str = "/run/sysx/control.sock";

/// Longest time that reading the artifact may take.
pub const CORE_BIN_WINDOW_MS: u64 = 10;

/// Whether `r` is what becomes of the artifact: `found` is `None` if there is no file, and
/// else what reading it gave.
pub open spec fn core_bin_loaded(
    found: Option<Result<Vec<u8>, IoFailure>>,
    r: Result<Vec<u8>, SysXError>,
) -> bool {
    match found {
        None => r matches Err(SysXError::Boot(m)) && m@ == CORE_BIN_PATH@ + " not found"@,
        Some(Err(e)) => r matches Err(SysXError::Boot(m)) && m@ == "Failed to read core.bin: "@
            + e.message@,
        Some(Ok(data)) => if data@.len() < CORE_BIN_BYTES {
            r matches Err(SysXError::Boot(m)) && m@ == "core.bin must be at least 32 bytes, got "@
                + crate::text::decimal(data@.len())
        } else {
            r == Ok::<Vec<u8>, SysXError>(data)
        },
    }
}

/// Accepts the artifact if it is there, could be read and is long enough.
pub fn load_core_bin(found: Option<Result<Vec<u8>, IoFailure>>) -> (r: Result<Vec<u8>, SysXError>)
    ensures
        core_bin_loaded(found, r),
{
    match found {
        None => {
            let mut m = CORE_BIN_PATH.to_owned();
            push_text(&mut m, " not found");
            Err(SysXError::Boot(m))
        },
        Some(Err(e)) => {
            let mut m = "Failed to read core.bin: ".to_owned();
            push_text(&mut m, e.message.as_str());
            Err(SysXError::Boot(m))
        },
        Some(Ok(data)) => {
            if data.len() < CORE_BIN_BYTES {
                let mut m = "core.bin must be at least 32 bytes, got ".to_owned();
                let n = decimal_string(data.len() as u64);
                push_text(&mut m, n.as_str());
                Err(SysXError::Boot(m))
            } else {
                Ok(data)
            }
        },
    }
}

/// Refuses to boot if reading the artifact took longer than its window.
pub fn check_core_bin_window(elapsed_ms: u64) -> (r: Result<(), SysXError>)
    ensures
        if elapsed_ms > CORE_BIN_WINDOW_MS {
            r matches Err(SysXError::Boot(m)) && m@ == "core.bin cast took "@ + crate::text::decimal(
                elapsed_ms as nat,
            ) + "ms (exceeded 10ms window)"@
        } else {
            r is Ok
        },
{
    if elapsed_ms > CORE_BIN_WINDOW_MS {
        let mut m = "core.bin cast took ".to_owned();
        let n = decimal_string(elapsed_ms);
        push_text(&mut m, n.as_str());
        push_text(&mut m, "ms (exceeded 10ms window)");
        return Err(SysXError::Boot(m));
    }
    Ok(())
}

/// Law: the artifact that the compiler forges passes the check at boot.
pub proof fn lemma_forged_core_bin_boots(
    c: crate::core_bin::SysxCoreConfig,
    data: Vec<u8>,
    r: Result<Vec<u8>, SysXError>,
)
    requires
        data@ == crate::core_bin::core_bytes(c),
        core_bin_loaded(Some(Ok(data)), r),
    ensures
        r == Ok::<Vec<u8>, SysXError>(data),
{
    crate::core_bin::lemma_core_bin_reads_back(c);
}

} // verus!
