//! What the sealed artifact and the client promise, said over bytes and words.
use bytes::Bytes;
use vstd::prelude::*;

use crate::boot::{check_core_bin_window, load_core_bin};
use crate::cli::{cli_request, reply_line, request_frame, CliRequest};
use crate::core_bin::{
    cast_core_bin, compile_service, compiler_request, forge_core_bin, parse_admin_gid,
    CompilerError, CompilerRequest, SchemaFile, SysxCoreConfig,
};
use crate::ipc::{decode_frame, Command, FrameError, Header};
use crate::runtime::IoFailure;
use crate::schema::{
    document_sections, from_yaml_strict, section_keys, unknown_fields, SchemaError, SchemaKey,
    ServiceSchema, YamlSection,
};
use crate::text::{hex_byte_string, parse_u64};
use crate::wire::bytes_of;
use crate::SysXError;

verus! {

// ---------------------------------------------------------------------------
// The artifact
// ---------------------------------------------------------------------------

/// Law: what was forged is read back, field by field, from an artifact of thirty-two bytes.
pub proof fn lemma_forged_is_cast(c: SysxCoreConfig, data: Vec<u8>, s: &[u8], r: SysxCoreConfig)
    requires
        call_ensures(SysxCoreConfig::forge, (&c,), data),
        s@ == data@,
        call_ensures(cast_core_bin, (s,), r),
    ensures
        data@.len() == 32,
        r == c,
{
    crate::core_bin::lemma_core_bin_reads_back(c);
}

/// Law: where the fields stand in the artifact, each with its low byte first; the fifteen bytes
/// behind them are zero.
pub proof fn lemma_artifact_layout(c: SysxCoreConfig, data: Vec<u8>, i: int)
    requires
        call_ensures(SysxCoreConfig::forge, (&c,), data),
    ensures
        data@[0] + data@[1] * 256 + data@[2] * 65536 + data@[3] * 16777216 == c.admin_gid,
        data@[4] + data@[5] * 256 + data@[6] * 65536 + data@[7] * 16777216 == c.watchdog_timeout_ms,
        data@[8] + data@[9] * 256 + data@[10] * 65536 + data@[11] * 16777216 == c.max_payload_bytes,
        data@[12] + data@[13] * 256 == c.max_concurrent_fds,
        data@[14] + data@[15] * 256 == c.epoll_timeout_ms,
        data@[16] == c.schema_version,
        17 <= i < 32 ==> data@[i] == 0,
{
    crate::core_bin::lemma_core_bin_reads_back(c);
    let s = crate::core_bin::core_bytes(c);
    assert(s.skip(4)[0] == s[4] && s.skip(4)[1] == s[5] && s.skip(4)[2] == s[6] && s.skip(4)[3]
        == s[7]);
    assert(s.skip(8)[0] == s[8] && s.skip(8)[1] == s[9] && s.skip(8)[2] == s[10] && s.skip(8)[3]
        == s[11]);
    assert(s.skip(12)[0] == s[12] && s.skip(12)[1] == s[13]);
    assert(s.skip(14)[0] == s[14] && s.skip(14)[1] == s[15]);
}

/// Law: the standard artifact seals ten seconds for the watchdog, 4096 bytes, 64 connections
/// and 100 milliseconds, and the group that was asked for.
pub proof fn lemma_standard_artifact(gid: u32, data: Vec<u8>, s: &[u8], r: SysxCoreConfig, g: u32)
    requires
        call_ensures(forge_core_bin, (gid,), data),
        s@ == data@,
        call_ensures(cast_core_bin, (s,), r),
        call_ensures(parse_admin_gid, (s,), g),
    ensures
        data@.len() == 32,
        r.admin_gid == gid,
        g == gid,
        r.watchdog_timeout_ms == 10000,
        r.max_payload_bytes == 4096,
        r.max_concurrent_fds == 64,
        r.epoll_timeout_ms == 100,
        r.schema_version == 1,
{
    crate::core_bin::lemma_core_bin_reads_back(
        SysxCoreConfig {
            admin_gid: gid,
            watchdog_timeout_ms: 10000,
            max_payload_bytes: 4096,
            max_concurrent_fds: 64,
            epoll_timeout_ms: 100,
            schema_version: 1,
        },
    );
}

/// Law: the bounds that hold where nothing else was sealed.
pub proof fn lemma_standard_bounds(gid: u32, r: SysxCoreConfig)
    requires
        call_ensures(SysxCoreConfig::new, (gid,), r),
    ensures
        r.admin_gid == gid,
        r.watchdog_timeout_ms == 10000,
        r.max_payload_bytes == 4096,
        r.max_concurrent_fds == 64,
        r.epoll_timeout_ms == 100,
        r.schema_version == 1,
{
}

/// Law: the machine boots exactly from an artifact that is there, could be read and has at
/// least thirty-two bytes, and takes it as it is; and exactly if reading it took no longer than
/// ten milliseconds.
pub proof fn lemma_boots_exactly(
    found: Option<Result<Vec<u8>, IoFailure>>,
    r: Result<Vec<u8>, SysXError>,
    elapsed_ms: u64,
    w: Result<(), SysXError>,
)
    requires
        call_ensures(load_core_bin, (found,), r),
        call_ensures(check_core_bin_window, (elapsed_ms,), w),
    ensures
        r is Ok <==> found is Some && found->0 is Ok && found->0->Ok_0@.len() >= 32,
        r is Ok ==> r->Ok_0 == found->0->Ok_0,
        r is Err ==> r->Err_0 is Boot,
        w is Ok <==> elapsed_ms <= 10,
        w is Err ==> w->Err_0 is Boot,
{
}

// ---------------------------------------------------------------------------
// The compiler
// ---------------------------------------------------------------------------

/// Law: a file becomes a definition exactly if it could be read and its document, taken
/// strictly, is one. Its keys are those that are read off the document, and none is passed over.
pub proof fn lemma_compiled_exactly(
    f: SchemaFile,
    text: &str,
    sections: Result<Vec<YamlSection>, serde_yaml::Error>,
    keys: Vec<SchemaKey>,
    unknown: Vec<String>,
    strict: Result<ServiceSchema, SchemaError>,
    r: Result<ServiceSchema, CompilerError>,
)
    requires
        text@ == f.text@,
        call_ensures(document_sections, (text,), sections),
        sections is Ok ==> call_ensures(section_keys, (&sections->Ok_0,), keys),
        call_ensures(unknown_fields, (&keys,), unknown),
        call_ensures(from_yaml_strict, (f.parsed, unknown), strict),
        call_ensures(compile_service, (Ok::<SchemaFile, IoFailure>(f),), r),
    ensures
        r is Ok <==> sections is Ok && strict is Ok,
        r is Ok ==> r->Ok_0 == strict->Ok_0,
        r is Err ==> r->Err_0 is Schema,
        f.parsed matches Err(e) ==> r == Err::<ServiceSchema, CompilerError>(
            CompilerError::Schema(SchemaError::Yaml(e)),
        ),
{
}

/// Law: a file that could not be read compiles to that failure.
pub proof fn lemma_unread_file(e: IoFailure, r: Result<ServiceSchema, CompilerError>)
    requires
        call_ensures(compile_service, (Err::<SchemaFile, IoFailure>(e),), r),
    ensures
        r == Err::<ServiceSchema, CompilerError>(CompilerError::Io(e)),
{
}

/// Law: what the command line of the compiler asks for.
pub proof fn lemma_compiler_words(
    args: &Vec<String>,
    chars: &Vec<char>,
    n: Option<u64>,
    r: CompilerRequest,
)
    requires
        call_ensures(compiler_request, (args,), r),
        args@.len() > 3 ==> chars@ == args@[3]@,
        call_ensures(parse_u64, (chars,), n),
    ensures
        r is Usage <==> args@.len() < 2,
        r is CompileUsage <==> args@.len() == 2 && args@[1]@ == "compile"@,
        r is Compile <==> args@.len() > 2 && args@[1]@ == "compile"@,
        r is Compile ==> r->yaml_path@ == args@[2]@,
        r is ForgeCoreUsage <==> 2 <= args@.len() < 4 && args@[1]@ == "forge-core"@,
        r is ForgeCore <==> args@.len() > 3 && args@[1]@ == "forge-core"@,
        r is ForgeCore ==> r->output_path@ == args@[2]@,
        r is ForgeCore && n is Some && n->0 <= 0xffff_ffff ==> r->admin_gid == n->0,
        r is ForgeCore && (n is None || n->0 > 0xffff_ffff) ==> r->admin_gid == 1000,
        r is Unknown ==> r->Unknown_0@ == args@[1]@,
{
    reveal_strlit("compile");
    reveal_strlit("forge-core");
    assert("compile"@.len() != "forge-core"@.len());
}

// ---------------------------------------------------------------------------
// The client
// ---------------------------------------------------------------------------

/// Whether the word takes a service behind it.
pub open spec fn takes_service(word: Seq<char>) -> bool {
    word == "start"@ || word == "stop"@ || word == "status"@ || word == "reset"@
}

/// Whether the word is a command to the machine.
pub open spec fn is_for_machine(word: Seq<char>) -> bool {
    word == "poweroff"@ || word == "reboot"@
}

proof fn lemma_command_words()
    ensures
        "start"@ != "stop"@,
        "start"@ != "status"@,
        "start"@ != "reset"@,
        "start"@ != "poweroff"@,
        "start"@ != "reboot"@,
        "stop"@ != "status"@,
        "stop"@ != "reset"@,
        "stop"@ != "poweroff"@,
        "stop"@ != "reboot"@,
        "status"@ != "reset"@,
        "status"@ != "poweroff"@,
        "status"@ != "reboot"@,
        "reset"@ != "poweroff"@,
        "reset"@ != "reboot"@,
        "poweroff"@ != "reboot"@,
        "--socket"@ != "start"@,
        "--socket"@ != "stop"@,
        "--socket"@ != "status"@,
        "--socket"@ != "reset"@,
{
    reveal_strlit("start");
    reveal_strlit("stop");
    reveal_strlit("status");
    reveal_strlit("reset");
    reveal_strlit("poweroff");
    reveal_strlit("reboot");
    reveal_strlit("--socket");
    assert("start"@.len() == 5 && "stop"@.len() == 4 && "status"@.len() == 6 && "reset"@.len() == 5
        && "poweroff"@.len() == 8 && "reboot"@.len() == 6 && "--socket"@.len() == 8);
    assert("start"@[0] == 's' && "reset"@[0] == 'r');
    assert("status"@[0] == 's' && "reboot"@[0] == 'r');
    assert("poweroff"@[0] == 'p' && "--socket"@[0] == '-');
}

/// Law: without the option, a command line is a command, and a service exactly where the
/// command takes one; it then asks for just that, at the socket of the environment or else at
/// `/run/sysx/control.sock`.
pub proof fn lemma_plain_command_line(
    args: &Vec<String>,
    env: Option<String>,
    r: Option<CliRequest>,
)
    requires
        call_ensures(cli_request, (args, env), r),
        args@.len() > 1 ==> args@[1]@ != "--socket"@,
    ensures
        r is Some <==> (args@.len() == 3 && takes_service(args@[1]@)) || (args@.len() == 2
            && is_for_machine(args@[1]@)),
        r is Some ==> (r->0.command == Command::Start <==> args@[1]@ == "start"@),
        r is Some ==> (r->0.command == Command::Stop <==> args@[1]@ == "stop"@),
        r is Some ==> (r->0.command == Command::Status <==> args@[1]@ == "status"@),
        r is Some ==> (r->0.command == Command::Reset <==> args@[1]@ == "reset"@),
        r is Some ==> (r->0.command == Command::Poweroff <==> args@[1]@ == "poweroff"@),
        r is Some ==> (r->0.command == Command::Reboot <==> args@[1]@ == "reboot"@),
        r is Some && args@.len() == 3 ==> r->0.service@ == args@[2]@,
        r is Some && args@.len() == 2 ==> r->0.service@.len() == 0,
        r is Some ==> r->0.socket@ == (if env is Some {
            env->0@
        } else {
            "/run/sysx/control.sock"@
        }),
{
    lemma_command_words();
}

/// Law: the option makes no difference but for the socket: a command line with it asks for what
/// the line without it asks for.
pub proof fn lemma_option_names_the_socket(
    args: &Vec<String>,
    rest: &Vec<String>,
    env: Option<String>,
    r: Option<CliRequest>,
    plain: Option<CliRequest>,
)
    requires
        args@.len() >= 3,
        args@[1]@ == "--socket"@,
        rest@ == seq![args@[0]] + args@.skip(3),
        rest@.len() > 1 ==> rest@[1]@ != "--socket"@,
        call_ensures(cli_request, (args, env), r),
        call_ensures(cli_request, (rest, env), plain),
    ensures
        r is Some <==> plain is Some,
        r is Some ==> r->0.command == plain->0.command && r->0.service@ == plain->0.service@
            && r->0.socket@ == args@[2]@,
{
    lemma_command_words();
    assert(rest@.len() == args@.len() - 2);
    if args@.len() > 3 {
        assert(rest@[1] == args@[3]);
    }
    if args@.len() > 4 {
        assert(rest@[2] == args@[4]);
    }
}

/// Law: the supervisor understands the client: a request on the wire decodes to its command and
/// to the bytes of its service, and there is one exactly if these are at most 4096.
pub proof fn lemma_request_round_trip<'a>(
    q: &CliRequest,
    sent: Option<Bytes>,
    buf: &'a [u8],
    r: Result<(Header, &'a [u8]), FrameError>,
)
    requires
        call_ensures(request_frame, (q,), sent),
        sent is Some ==> buf@ == bytes_of(sent->0),
        call_ensures(decode_frame, (buf,), r),
    ensures
        sent is Some <==> vstd::utf8::encode_utf8(q.service@).len() <= 4096,
        sent is Some ==> r is Ok && r->Ok_0.0.command == q.command && r->Ok_0.1@
            == vstd::utf8::encode_utf8(q.service@),
{
    if sent is Some {
        let payload = vstd::utf8::encode_utf8(q.service@);
        let h = choose|h: Header|
            h.magic@ == crate::ipc::SYSX_MAGIC@ && h.version == crate::ipc::SYSX_VERSION
                && h.command == q.command && h.payload_length == payload.len() && bytes_of(sent->0)
                == #[trigger] crate::ipc::header_bytes(h) + payload;
        crate::ipc::lemma_frame_reads_back(h, payload);
        assert(payload.take(payload.len() as int) =~= payload);
        crate::ipc::lemma_codes_distinct(r->Ok_0.0.command, q.command);
    }
}

/// Law: the operator is told of an answer exactly if it is a frame with two bytes, and is told
/// the command and both bytes.
pub proof fn lemma_answer_is_told<'a>(
    answer: &'a [u8],
    decoded: Result<(Header, &'a [u8]), FrameError>,
    word: &'static str,
    b0: u8,
    b1: u8,
    h0: String,
    h1: String,
    r: Result<String, String>,
)
    requires
        call_ensures(decode_frame, (answer,), decoded),
        call_ensures(reply_line, (answer,), r),
        decoded is Ok ==> call_ensures(Command::word, (&decoded->Ok_0.0.command,), word),
        call_ensures(hex_byte_string, (b0,), h0),
        call_ensures(hex_byte_string, (b1,), h1),
    ensures
        r is Ok <==> decoded is Ok && decoded->Ok_0.1@.len() == 2,
        r is Ok && decoded->Ok_0.1@ == seq![b0, b1] ==> r->Ok_0@ == word@ + " [S:"@ + h0@ + ", R:"@
            + h1@ + "]"@,
{
    if r is Ok && decoded is Ok && decoded->Ok_0.1@ == seq![b0, b1] {
        let c = choose|c: Command|
            (#[trigger] c.code()) == answer@[5] && r->Ok_0@ == crate::cli::reply_text(c, b0, b1);
        crate::ipc::lemma_codes_distinct(c, decoded->Ok_0.0.command);
    }
}

/// Law: the words for the commands.
pub proof fn lemma_command_is_told(c: Command, word: &'static str)
    requires
        call_ensures(Command::word, (&c,), word),
    ensures
        word@ == (match c {
            Command::Start => "start"@,
            Command::Stop => "stop"@,
            Command::Status => "status"@,
            Command::Reset => "reset"@,
            Command::Poweroff => "poweroff"@,
            Command::Reboot => "reboot"@,
        }),
{
}

} // verus!
