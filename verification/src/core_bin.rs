//! The sealed boot artifact: thirty-two bytes that fix the bounds of the supervisor.
use vstd::prelude::*;

use crate::runtime::IoFailure;
use crate::schema::{
    document_sections, from_yaml_strict, section_keys, unknown_fields, SchemaError, ServiceSchema,
};
use crate::text::{chars_of, parse_u64, push_text, same_text};

verus! {

/// Length of the artifact.
pub const CORE_BIN_BYTES: usize = 32;

/// Why compiling a definition or forging the artifact failed.
#[derive(Debug)]
pub enum CompilerError {
    Schema(SchemaError),
    Io(IoFailure),
    Forge(String),
}

impl From<SchemaError> for CompilerError {
    fn from(e: SchemaError) -> (r: CompilerError) {
        CompilerError::Schema(e)
    }
}

impl vstd::std_specs::convert::FromSpecImpl<SchemaError> for CompilerError {
    open spec fn obeys_from_spec() -> bool {
        true
    }

    open spec fn from_spec(e: SchemaError) -> CompilerError {
        CompilerError::Schema(e)
    }
}

impl From<IoFailure> for CompilerError {
    fn from(e: IoFailure) -> (r: CompilerError) {
        CompilerError::Io(e)
    }
}

impl vstd::std_specs::convert::FromSpecImpl<IoFailure> for CompilerError {
    open spec fn obeys_from_spec() -> bool {
        true
    }

    open spec fn from_spec(e: IoFailure) -> CompilerError {
        CompilerError::Io(e)
    }
}

impl CompilerError {
    /// What [`CompilerError::message`] says, where the YAML parser's own words are `words`.
    pub open spec fn text(&self, words: Seq<char>) -> Seq<char> {
        match self {
            CompilerError::Schema(e) => "schema error: "@ + e.text(words),
            CompilerError::Io(e) => "io error: "@ + e.message@,
            CompilerError::Forge(m) => "forge error: "@ + m@,
        }
    }

    /// Whether [`CompilerError::message`] may say `m`.
    pub open spec fn may_say(&self, m: Seq<char>) -> bool {
        exists|words: Seq<char>| m == #[trigger] self.text(words)
    }

    /// The error in words. What the YAML parser says of an error of its own is left open.
    pub fn message(&self) -> (r: String)
        ensures
            self.may_say(r@),
    {
        match self {
            CompilerError::Schema(e) => {
                let mut r = "schema error: ".to_owned();
                let m = e.message();
                push_text(&mut r, m.as_str());
                proof {
                    let words = choose|words: Seq<char>| m@ == #[trigger] e.text(words);
                    assert(r@ == self.text(words));
                }
                r
            },
            CompilerError::Io(e) => {
                let mut r = "io error: ".to_owned();
                push_text(&mut r, e.message.as_str());
                assert(r@ == self.text(Seq::empty()));
                r
            },
            CompilerError::Forge(m) => {
                let mut r = "forge error: ".to_owned();
                push_text(&mut r, m.as_str());
                assert(r@ == self.text(Seq::empty()));
                r
            },
        }
    }
}

/// What the artifact seals.
#[derive(Debug, Clone)]
pub struct SysxCoreConfig {
    /// The group whose members may command the supervisor.
    pub admin_gid: u32,
    pub watchdog_timeout_ms: u32,
    pub max_payload_bytes: u32,
    pub max_concurrent_fds: u16,
    pub epoll_timeout_ms: u16,
    pub schema_version: u8,
}

/// The four bytes of `n`, the low one first.
pub open spec fn u32_le(n: u32) -> Seq<u8> {
    seq![
        (n % 256) as u8,
        (n / 0x100 % 256) as u8,
        (n / 0x1_0000 % 256) as u8,
        (n / 0x100_0000) as u8,
    ]
}

/// The number whose four bytes, the low one first, stand at the start of `s`.
pub open spec fn u32_of(s: Seq<u8>) -> int {
    s[0] + 0x100 * s[1] + 0x1_0000 * s[2] + 0x100_0000 * s[3]
}

/// The number whose two bytes, the low one first, stand at the start of `s`.
pub open spec fn u16_of(s: Seq<u8>) -> int {
    s[0] + 256 * s[1]
}

/// The fields one behind the other, each with its low byte first, and zeros up to the full
/// length.
pub open spec fn core_bytes(c: SysxCoreConfig) -> Seq<u8> {
    u32_le(c.admin_gid) + u32_le(c.watchdog_timeout_ms) + u32_le(c.max_payload_bytes)
        + crate::wire::u16_le(c.max_concurrent_fds) + crate::wire::u16_le(c.epoll_timeout_ms)
        + seq![c.schema_version] + Seq::new(15, |i: int| 0u8)
}

fn push_u16_le(buf: &mut Vec<u8>, n: u16)
    ensures
        final(buf)@ == old(buf)@ + crate::wire::u16_le(n),
{
    buf.push((n % 256) as u8);
    buf.push((n / 256) as u8);
    assert(buf@ =~= old(buf)@ + crate::wire::u16_le(n));
}

fn push_u32_le(buf: &mut Vec<u8>, n: u32)
    ensures
        final(buf)@ == old(buf)@ + u32_le(n),
{
    buf.push((n % 256) as u8);
    buf.push((n / 0x100 % 256) as u8);
    buf.push((n / 0x1_0000 % 256) as u8);
    buf.push((n / 0x100_0000) as u8);
    assert(buf@ =~= old(buf)@ + u32_le(n));
}

impl SysxCoreConfig {
    /// The standard bounds, for the given group of administrators.
    pub fn new(admin_gid: u32) -> (r: SysxCoreConfig)
        ensures
            r == (SysxCoreConfig {
                admin_gid,
                watchdog_timeout_ms: 10000,
                max_payload_bytes: 4096,
                max_concurrent_fds: 64,
                epoll_timeout_ms: 100,
                schema_version: 1,
            }),
    {
        SysxCoreConfig {
            admin_gid,
            watchdog_timeout_ms: 10000,
            max_payload_bytes: 4096,
            max_concurrent_fds: 64,
            epoll_timeout_ms: 100,
            schema_version: 1,
        }
    }

    /// The contents of the artifact.
    pub fn forge(&self) -> (r: Vec<u8>)
        ensures
            r@ == core_bytes(*self),
            r@.len() == CORE_BIN_BYTES,
    {
        let mut buf: Vec<u8> = Vec::with_capacity(CORE_BIN_BYTES);
        push_u32_le(&mut buf, self.admin_gid);
        push_u32_le(&mut buf, self.watchdog_timeout_ms);
        push_u32_le(&mut buf, self.max_payload_bytes);
        push_u16_le(&mut buf, self.max_concurrent_fds);
        push_u16_le(&mut buf, self.epoll_timeout_ms);
        buf.push(self.schema_version);
        let ghost fields = buf@;
        assert(fields.len() == 17);
        while buf.len() < CORE_BIN_BYTES
            invariant
                17 <= buf@.len() <= CORE_BIN_BYTES,
                buf@ == fields + Seq::new((buf@.len() - 17) as nat, |i: int| 0u8),
                fields.len() == 17,
            decreases CORE_BIN_BYTES - buf.len(),
        {
            buf.push(0);
            assert(buf@ =~= fields + Seq::new((buf@.len() - 17) as nat, |i: int| 0u8));
        }
        assert(buf@ =~= core_bytes(*self));
        buf
    }
}

/// The artifact with the standard bounds.
pub fn forge_core_bin(admin_gid: u32) -> (r: Vec<u8>)
    ensures
        r@ == core_bytes(
            (SysxCoreConfig {
                admin_gid,
                watchdog_timeout_ms: 10000,
                max_payload_bytes: 4096,
                max_concurrent_fds: 64,
                epoll_timeout_ms: 100,
                schema_version: 1,
            }),
        ),
        r@.len() == CORE_BIN_BYTES,
{
    SysxCoreConfig::new(admin_gid).forge()
}

/// The group of administrators in the artifact.
pub fn parse_admin_gid(core_data: &[u8]) -> (r: u32)
    requires
        core_data@.len() >= 4,
    ensures
        r == u32_of(core_data@),
{
    assert(core_data@.skip(0) =~= core_data@);
    u32_at(core_data, 0)
}

fn u32_at(data: &[u8], i: usize) -> (r: u32)
    requires
        i + 4 <= data@.len(),
    ensures
        r == u32_of(data@.skip(i as int)),
{
    data[i] as u32 + 0x100 * data[i + 1] as u32 + 0x1_0000 * data[i + 2] as u32 + 0x100_0000
        * data[i + 3] as u32
}

fn u16_at(data: &[u8], i: usize) -> (r: u16)
    requires
        i + 2 <= data@.len(),
    ensures
        r == u16_of(data@.skip(i as int)),
{
    data[i] as u16 + 256 * data[i + 1] as u16
}

/// Takes the artifact apart.
pub fn cast_core_bin(core_data: &[u8]) -> (r: SysxCoreConfig)
    requires
        core_data@.len() >= CORE_BIN_BYTES,
    ensures
        r.admin_gid == u32_of(core_data@),
        r.watchdog_timeout_ms == u32_of(core_data@.skip(4)),
        r.max_payload_bytes == u32_of(core_data@.skip(8)),
        r.max_concurrent_fds == u16_of(core_data@.skip(12)),
        r.epoll_timeout_ms == u16_of(core_data@.skip(14)),
        r.schema_version == core_data@[16],
{
    SysxCoreConfig {
        admin_gid: parse_admin_gid(core_data),
        watchdog_timeout_ms: u32_at(core_data, 4),
        max_payload_bytes: u32_at(core_data, 8),
        max_concurrent_fds: u16_at(core_data, 12),
        epoll_timeout_ms: u16_at(core_data, 14),
        schema_version: core_data[16],
    }
}

/// The file of a definition: the document, and what the parser made of it.
#[derive(Debug)]
pub struct SchemaFile {
    pub text: String,
    pub parsed: Result<ServiceSchema, serde_yaml::Error>,
}

/// Whether `r` is what becomes of a document with these sections, `None` if they cannot be
/// read. A key that no field stands for is a fault.
pub open spec fn is_compiled(
    parsed: Result<ServiceSchema, serde_yaml::Error>,
    sections: Option<Seq<(Seq<char>, Seq<Seq<char>>)>>,
    r: Result<ServiceSchema, SchemaError>,
) -> bool {
    match sections {
        Some(s) => crate::schema::is_strict_outcome(
            parsed,
            crate::schema::unmapped(crate::schema::keys_in(s)),
            r,
        ),
        None => match parsed {
            Err(e) => r == Err::<ServiceSchema, SchemaError>(SchemaError::Yaml(e)),
            Ok(_) => r matches Err(SchemaError::Yaml(_)),
        },
    }
}

fn compile_document(file: SchemaFile) -> (r: Result<ServiceSchema, SchemaError>)
    ensures
        is_compiled(file.parsed, crate::schema::sections_of(file.text@), r),
{
    let SchemaFile { text, parsed } = file;
    match parsed {
        Err(e) => Err(SchemaError::from(e)),
        Ok(schema) => match document_sections(text.as_str()) {
            Err(e) => Err(SchemaError::from(e)),
            Ok(sections) => {
                let unknown = unknown_fields(&section_keys(&sections));
                from_yaml_strict(Ok(schema), unknown)
            },
        },
    }
}

/// Turns the file of a definition, read and parsed, into a valid definition.
pub fn compile_service(file: Result<SchemaFile, IoFailure>) -> (r: Result<
    ServiceSchema,
    CompilerError,
>)
    ensures
        match file {
            Err(e) => r == Err::<ServiceSchema, CompilerError>(CompilerError::Io(e)),
            Ok(f) => match r {
                Ok(schema) => is_compiled(
                    f.parsed,
                    crate::schema::sections_of(f.text@),
                    Ok(schema),
                ),
                Err(CompilerError::Schema(e)) => is_compiled(
                    f.parsed,
                    crate::schema::sections_of(f.text@),
                    Err(e),
                ),
                Err(_) => false,
            },
        },
{
    match file {
        Err(e) => Err(CompilerError::from(e)),
        Ok(f) => match compile_document(f) {
            Ok(schema) => Ok(schema),
            Err(e) => Err(CompilerError::from(e)),
        },
    }
}

/// What the compiler is asked to do on its command line.
#[derive(Debug)]
pub enum CompilerRequest {
    /// There is no subcommand.
    Usage,
    /// `compile` without a file.
    CompileUsage,
    /// `forge-core` without a file or a group.
    ForgeCoreUsage,
    /// There is no such subcommand.
    Unknown(String),
    /// Compile this definition.
    Compile { yaml_path: String },
    /// Forge the artifact into this file.
    ForgeCore { output_path: String, admin_gid: u32 },
}

/// The group that a command-line argument names. What is no number names the default group.
pub open spec fn gid_argument(arg: Seq<char>) -> u32 {
    match crate::text::u64_value(arg) {
        Some(n) => if n <= u32::MAX {
            n as u32
        } else {
            1000
        },
        None => 1000,
    }
}

/// Whether `r` is what the command line `args`, with the program first, asks for.
pub open spec fn asks_for(args: Seq<String>, r: CompilerRequest) -> bool {
    if args.len() < 2 {
        r is Usage
    } else if args[1]@ == "compile"@ {
        if args.len() < 3 {
            r is CompileUsage
        } else {
            r matches CompilerRequest::Compile { yaml_path } && yaml_path@ == args[2]@
        }
    } else if args[1]@ == "forge-core"@ {
        if args.len() < 4 {
            r is ForgeCoreUsage
        } else {
            r matches CompilerRequest::ForgeCore { output_path, admin_gid } && output_path@
                == args[2]@ && admin_gid == gid_argument(args[3]@)
        }
    } else {
        r matches CompilerRequest::Unknown(c) && c@ == args[1]@
    }
}

/// Reads the command line of the compiler.
pub fn compiler_request(args: &Vec<String>) -> (r: CompilerRequest)
    ensures
        asks_for(args@, r),
{
    if args.len() < 2 {
        return CompilerRequest::Usage;
    }
    if same_text(args[1].as_str(), "compile") {
        if args.len() < 3 {
            return CompilerRequest::CompileUsage;
        }
        return CompilerRequest::Compile { yaml_path: args[2].as_str().to_owned() };
    }
    if same_text(args[1].as_str(), "forge-core") {
        if args.len() < 4 {
            return CompilerRequest::ForgeCoreUsage;
        }
        let admin_gid: u32 = match parse_u64(&chars_of(args[3].as_str())) {
            Some(n) => if n <= u32::MAX as u64 {
                n as u32
            } else {
                1000
            },
            None => 1000,
        };
        return CompilerRequest::ForgeCore { output_path: args[2].as_str().to_owned(), admin_gid };
    }
    CompilerRequest::Unknown(args[1].as_str().to_owned())
}

/// Law: the supervisor reads what the compiler sealed, every field of it.
pub proof fn lemma_core_bin_reads_back(c: SysxCoreConfig)
    ensures
        core_bytes(c).len() == CORE_BIN_BYTES,
        u32_of(core_bytes(c)) == c.admin_gid,
        u32_of(core_bytes(c).skip(4)) == c.watchdog_timeout_ms,
        u32_of(core_bytes(c).skip(8)) == c.max_payload_bytes,
        u16_of(core_bytes(c).skip(12)) == c.max_concurrent_fds,
        u16_of(core_bytes(c).skip(14)) == c.epoll_timeout_ms,
        core_bytes(c)[16] == c.schema_version,
{
    let s = core_bytes(c);
    lemma_u32_reads_back(s, 0, c.admin_gid);
    lemma_u32_reads_back(s, 4, c.watchdog_timeout_ms);
    lemma_u32_reads_back(s, 8, c.max_payload_bytes);
    assert(s.skip(0) =~= s);
}

proof fn lemma_u32_reads_back(s: Seq<u8>, i: int, n: u32)
    requires
        0 <= i <= s.len() - 4,
        s[i] == u32_le(n)[0],
        s[i + 1] == u32_le(n)[1],
        s[i + 2] == u32_le(n)[2],
        s[i + 3] == u32_le(n)[3],
    ensures
        u32_of(s.skip(i)) == n,
{
    assert(s.skip(i)[0] == (n % 256) as u8);
    assert(s.skip(i)[1] == (n / 0x100 % 256) as u8);
    assert(s.skip(i)[2] == (n / 0x1_0000 % 256) as u8);
    assert(s.skip(i)[3] == (n / 0x100_0000) as u8);
}

} // verus!
