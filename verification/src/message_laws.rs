//! What the errors say.
use vstd::prelude::*;

use crate::boot::{check_core_bin_window, load_core_bin};
use crate::core_bin::CompilerError;
use crate::ipc::FrameError;
use crate::reactor::{SpawnDenial, StartBlock};
use crate::runtime::{IoFailure, RuntimeError};
use crate::schema::{validate_schema, SchemaError, ServiceSchema};
use crate::text::{decimal_string, hex_byte_string};
use crate::SysXError;

verus! {

/// Law: an error says where it arose, and then what is wrong.
pub proof fn lemma_error_says(e: SysXError, inner: FrameError, said: String, r: String)
    requires
        call_ensures(SysXError::message, (&e,), r),
        call_ensures(FrameError::message, (&inner,), said),
    ensures
        e matches SysXError::Boot(m) ==> r@ == "Boot failed: "@ + m@,
        e matches SysXError::Dag(m) ==> r@ == "DAG validation failed: "@ + m@,
        e matches SysXError::Reactor(m) ==> r@ == "Reactor error: "@ + m@,
        e == SysXError::Ipc(inner) ==> r@ == "IPC error: "@ + said@,
{
}

/// Law: what is wrong with a frame.
pub proof fn lemma_frame_error_says(
    e: FrameError,
    n: u64,
    number: String,
    b: u8,
    byte: String,
    one: String,
    most: String,
    r: String,
)
    requires
        call_ensures(FrameError::message, (&e,), r),
        call_ensures(decimal_string, (n,), number),
        call_ensures(hex_byte_string, (b,), byte),
        call_ensures(decimal_string, (1u64,), one),
        call_ensures(decimal_string, (4096u64,), most),
    ensures
        e is TruncatedHeader ==> r@ == "truncated header"@,
        e is BadMagic ==> r@ == "bad magic bytes"@,
        e is VersionMismatch && e->got == n ==> r@ == "version mismatch: got "@ + number@
            + ", expected "@ + one@,
        e == FrameError::UnknownCommand(b) ==> r@ == "unknown command: "@ + byte@,
        e is PayloadTooLarge && e->PayloadTooLarge_0 == n ==> r@ == "payload too large: "@ + number@
            + " bytes (max "@ + most@ + ")"@,
        e is CredValidationFailed ==> r@ == "SO_PEERCRED validation failed"@,
{
}

/// Law: why a service is not started, or not spawned.
pub proof fn lemma_denials_say(b: StartBlock, r: &'static str, d: SpawnDenial, q: &'static str)
    requires
        call_ensures(StartBlock::message, (&b,), r),
        call_ensures(SpawnDenial::message, (&d,), q),
    ensures
        b is UnknownService ==> r@ == "unknown service"@,
        b is UpstreamFailed ==> r@ == "upstream dependency failed"@,
        b is UpstreamNotRunning ==> r@ == "upstream not Running"@,
        d is Tombstoned ==> q@ == "tombstoned"@,
        d is CascadeFailed ==> q@ == "cascade_failed"@,
        d is AlreadyActive ==> q@ == "already running or starting"@,
{
}

/// Law: the refusal of an id quotes it.
pub proof fn lemma_refused_id_says(e: RuntimeError, r: String)
    requires
        call_ensures(RuntimeError::message, (&e,), r),
    ensures
        e matches RuntimeError::InvalidServiceId(id) ==> r@ == "invalid service id "@
            + crate::text::debug_text(id@) + ": empty, contains '/', or '..'"@,
{
}

/// Law: the refusal of a definition names the keys or the rule; what the parser says of a
/// document comes behind the words that tell whose it is.
pub proof fn lemma_schema_error_says(e: SchemaError, r: String)
    requires
        call_ensures(SchemaError::message, (&e,), r),
    ensures
        e matches SchemaError::UnknownFields(m) ==> r@ == "unknown field(s) in schema: "@ + m@,
        e matches SchemaError::Validation(m) ==> r@ == "validation error: "@ + m@,
        e is Yaml ==> r@.len() >= 18 && r@.take(18) == "yaml parse error: "@,
{
    let words = choose|words: Seq<char>| r@ == #[trigger] e.text(words);
    if e is Yaml {
        reveal_strlit("yaml parse error: ");
        assert(r@.take(18) =~= "yaml parse error: "@);
    }
}

/// Law: the compiler says whether the definition, the file or the artifact is at fault.
pub proof fn lemma_compiler_error_says(e: CompilerError, r: String)
    requires
        call_ensures(CompilerError::message, (&e,), r),
    ensures
        e matches CompilerError::Io(f) ==> r@ == "io error: "@ + f.message@,
        e matches CompilerError::Forge(m) ==> r@ == "forge error: "@ + m@,
        e matches CompilerError::Schema(SchemaError::Validation(m)) ==> r@ == "schema error: "@ + (
        "validation error: "@ + m@),
        e matches CompilerError::Schema(SchemaError::UnknownFields(m)) ==> r@ == "schema error: "@
            + ("unknown field(s) in schema: "@ + m@),
{
    let words = choose|words: Seq<char>| r@ == #[trigger] e.text(words);
    assert(r@ == e.text(words));
}

/// Law: a definition of another version is told that version, and one without a name that it
/// has none, in this order.
pub proof fn lemma_broken_rule_says(
    s: &ServiceSchema,
    v: u64,
    number: String,
    r: Result<(), SchemaError>,
)
    requires
        call_ensures(validate_schema, (s,), r),
        call_ensures(decimal_string, (v,), number),
        v == s.sysx_version,
    ensures
        s.sysx_version != 1 ==> r->Err_0->Validation_0@ == "unsupported sysx_version: "@ + number@,
        s.sysx_version == 1 && s.service.name@.len() == 0 ==> r->Err_0->Validation_0@
            == "service.name cannot be empty"@,
{
}

/// Law: a machine that does not boot says what is wrong with its artifact.
pub proof fn lemma_boot_failure_says(
    found: Option<Result<Vec<u8>, IoFailure>>,
    r: Result<Vec<u8>, SysXError>,
    n: u64,
    number: String,
    w: Result<(), SysXError>,
)
    requires
        call_ensures(load_core_bin, (found,), r),
        call_ensures(decimal_string, (n,), number),
        call_ensures(check_core_bin_window, (n,), w),
    ensures
        found is None ==> r->Err_0->Boot_0@ == "/etc/sysx/core.bin"@ + " not found"@,
        found is Some && found->0 is Err ==> r->Err_0->Boot_0@ == "Failed to read core.bin: "@
            + found->0->Err_0.message@,
        r is Err && found is Some && found->0 is Ok && found->0->Ok_0@.len() == n
            ==> r->Err_0->Boot_0@ == "core.bin must be at least 32 bytes, got "@ + number@,
        w is Err ==> w->Err_0->Boot_0@ == "core.bin cast took "@ + number@
            + "ms (exceeded 10ms window)"@,
{
}

} // verus!
