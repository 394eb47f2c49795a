//! The control protocol: framing, commands, reply bytes and peer credentials.
use bytes::{Bytes, BytesMut};
use vstd::prelude::*;
use vstd::slice::slice_subrange;

use crate::text::{decimal_string, hex_byte_string, push_text};
use crate::wire::{
    buffer_freeze, buffer_put_slice, buffer_put_u16_le, buffer_put_u64, buffer_put_u8,
    buffer_reserve, buffer_with_capacity, bytes_copy_from_slice, bytes_copy_to_slice,
    bytes_get_u16_le, bytes_get_u64, bytes_get_u8, bytes_len, bytes_slice,
};

verus! {

/// The first bytes of every frame: `SYSX`.
pub const SYSX_MAGIC: [u8; 4] = [0x53, 0x59, 0x53, 0x58];

pub const SYSX_VERSION: u8 = 1;

/// Largest payload of a frame.
pub const MAX_PAYLOAD_BYTES: usize = 4096;

/// Most control connections that are open at a time.
pub const MAX_CONCURRENT_FDS: usize = 64;

/// Reply byte: the command was carried out.
pub const OUTCOME_SUCCESS: u8 = 0x00;

/// Reply byte: the peer may not command.
pub const OUTCOME_UNAUTHORIZED: u8 = 0x02;

/// Reply byte: no further reason.
pub const REASON_NA: u8 = 0x00;

/// Status byte: the service runs.
pub const STATUS_RUNNING: u8 = 0x02;

/// Status byte: the service has failed.
pub const STATUS_FAILED_PRIMARY: u8 = 0x05;

/// Status byte: no further reason.
pub const STATUS_REASON_NONE: u8 = 0x00;

/// Status byte: the service has failed, or one that it depends on has.
pub const STATUS_REASON_ORPHANED: u8 = 0x01;

/// What a peer asks for.
#[derive(Clone, Copy, Debug, PartialEq, Eq, Hash, Structural)]
pub enum Command {
    /// Start the service that the payload names.
    Start,
    /// Stop the service that the payload names.
    Stop,
    /// Tell the state of the service that the payload names.
    Status,
    /// Clear the tombstone of the service that the payload names.
    Reset,
    /// Stop everything and power the machine off.
    Poweroff,
    /// Stop everything and restart the machine.
    Reboot,
}

impl Command {
    /// The byte that stands for the command on the wire.
    pub open spec fn code(&self) -> u8 {
        match self {
            Command::Start => 0x10,
            Command::Stop => 0x20,
            Command::Status => 0x30,
            Command::Reset => 0x40,
            Command::Poweroff => 0x50,
            Command::Reboot => 0x60,
        }
    }

    /// The byte that stands for the command on the wire.
    pub fn to_u8(&self) -> (r: u8)
        ensures
            r == self.code(),
    {
        match self {
            Command::Start => 0x10,
            Command::Stop => 0x20,
            Command::Status => 0x30,
            Command::Reset => 0x40,
            Command::Poweroff => 0x50,
            Command::Reboot => 0x60,
        }
    }

    /// The word for the command.
    pub open spec fn word_text(&self) -> Seq<char> {
        match self {
            Command::Start => "start"@,
            Command::Stop => "stop"@,
            Command::Status => "status"@,
            Command::Reset => "reset"@,
            Command::Poweroff => "poweroff"@,
            Command::Reboot => "reboot"@,
        }
    }

    /// The word for the command.
    pub fn word(&self) -> (r: &'static str)
        ensures
            r@ == self.word_text(),
    {
        match self {
            Command::Start => "start",
            Command::Stop => "stop",
            Command::Status => "status",
            Command::Reset => "reset",
            Command::Poweroff => "poweroff",
            Command::Reboot => "reboot",
        }
    }

    /// The command that `val` stands for.
    pub fn from_u8(val: u8) -> (r: Option<Command>)
        ensures
            match r {
                Some(c) => c.code() == val,
                None => names_no_command(val),
            },
    {
        match val {
            0x10 => Some(Command::Start),
            0x20 => Some(Command::Stop),
            0x30 => Some(Command::Status),
            0x40 => Some(Command::Reset),
            0x50 => Some(Command::Poweroff),
            0x60 => Some(Command::Reboot),
            _ => None,
        }
    }
}

/// Whether `val` stands for no command.
pub open spec fn names_no_command(val: u8) -> bool {
    forall|c: Command| (#[trigger] c.code()) != val
}

/// Why a frame, or its sender, was refused.
#[derive(Debug, Clone, Copy, PartialEq, Eq, Structural)]
pub enum FrameError {
    /// The header or the payload is not complete.
    TruncatedHeader,
    BadMagic,
    VersionMismatch { got: u8 },
    UnknownCommand(u8),
    PayloadTooLarge(usize),
    /// The credentials of the peer could not be read.
    CredValidationFailed,
}

impl FrameError {
    /// What [`FrameError::message`] says.
    pub open spec fn text(&self) -> Seq<char> {
        match self {
            FrameError::TruncatedHeader => "truncated header"@,
            FrameError::BadMagic => "bad magic bytes"@,
            FrameError::VersionMismatch { got } => "version mismatch: got "@ + crate::text::decimal(
                *got as nat,
            ) + ", expected "@ + crate::text::decimal(SYSX_VERSION as nat),
            FrameError::UnknownCommand(c) => "unknown command: "@ + crate::text::hex_byte(*c),
            FrameError::PayloadTooLarge(n) => "payload too large: "@ + crate::text::decimal(
                *n as nat,
            ) + " bytes (max "@ + crate::text::decimal(MAX_PAYLOAD_BYTES as nat) + ")"@,
            FrameError::CredValidationFailed => "SO_PEERCRED validation failed"@,
        }
    }

    /// The error in words.
    pub fn message(&self) -> (r: String)
        ensures
            r@ == self.text(),
    {
        match self {
            FrameError::TruncatedHeader => "truncated header".to_owned(),
            FrameError::BadMagic => "bad magic bytes".to_owned(),
            FrameError::VersionMismatch { got } => {
                let mut m = "version mismatch: got ".to_owned();
                let n = decimal_string(*got as u64);
                push_text(&mut m, n.as_str());
                push_text(&mut m, ", expected ");
                let n = decimal_string(SYSX_VERSION as u64);
                push_text(&mut m, n.as_str());
                m
            },
            FrameError::UnknownCommand(c) => {
                let mut m = "unknown command: ".to_owned();
                let n = hex_byte_string(*c);
                push_text(&mut m, n.as_str());
                m
            },
            FrameError::PayloadTooLarge(n) => {
                let mut m = "payload too large: ".to_owned();
                let n = decimal_string(*n as u64);
                push_text(&mut m, n.as_str());
                push_text(&mut m, " bytes (max ");
                let n = decimal_string(MAX_PAYLOAD_BYTES as u64);
                push_text(&mut m, n.as_str());
                push_text(&mut m, ")");
                m
            },
            FrameError::CredValidationFailed => "SO_PEERCRED validation failed".to_owned(),
        }
    }
}

/// The fixed part of a frame.
#[derive(Debug, Clone, Copy)]
pub struct Header {
    pub magic: [u8; 4],
    pub version: u8,
    pub command: Command,
    pub payload_length: u32,
}

/// `n`, or the largest payload length if that is less.
pub open spec fn capped(n: nat) -> nat {
    if n <= MAX_PAYLOAD_BYTES {
        n
    } else {
        MAX_PAYLOAD_BYTES as nat
    }
}

/// The sixteen bytes of `h` on the wire: magic, version, command, payload length with the
/// low byte first, and eight reserved bytes.
pub open spec fn header_bytes(h: Header) -> Seq<u8> {
    h.magic@ + seq![h.version, h.command.code()] + crate::wire::u16_le(
        capped(h.payload_length as nat) as u16,
    ) + crate::wire::u64_be(0)
}

/// Why `s` does not start with a valid header.
pub open spec fn header_fault(s: Seq<u8>) -> Option<FrameError> {
    if s.len() < 16 {
        Some(FrameError::TruncatedHeader)
    } else if s.take(4) != SYSX_MAGIC@ {
        Some(FrameError::BadMagic)
    } else if s[4] != SYSX_VERSION {
        Some(FrameError::VersionMismatch { got: s[4] })
    } else if forall|c: Command| (#[trigger] c.code()) != s[5] {
        Some(FrameError::UnknownCommand(s[5]))
    } else if declared_length(s) > MAX_PAYLOAD_BYTES {
        Some(FrameError::PayloadTooLarge(declared_length(s) as usize))
    } else {
        None
    }
}

/// The payload length in the header at the start of `s`.
pub open spec fn declared_length(s: Seq<u8>) -> nat {
    (s[6] + 256 * s[7]) as nat
}

/// Whether `h` is the valid header at the start of `s`.
pub open spec fn is_header_of(h: Header, s: Seq<u8>) -> bool {
    &&& h.magic@ == SYSX_MAGIC@
    &&& h.version == SYSX_VERSION
    &&& h.command.code() == s[5]
    &&& h.payload_length == declared_length(s)
}

impl Header {
    /// Length of a header on the wire.
    pub const SIZE: usize = 16;

    /// A header of this protocol version. A length above the largest payload is cut down
    /// to it.
    pub fn new(command: Command, payload_length: u32) -> (r: Header)
        ensures
            r.magic@ == SYSX_MAGIC@,
            r.version == SYSX_VERSION,
            r.command == command,
            r.payload_length == capped(payload_length as nat),
    {
        let payload_length: u32 = if payload_length <= MAX_PAYLOAD_BYTES as u32 {
            payload_length
        } else {
            MAX_PAYLOAD_BYTES as u32
        };
        Header { magic: SYSX_MAGIC, version: SYSX_VERSION, command, payload_length }
    }

    /// Appends the header to `buf`.
    pub fn encode(&self, buf: &mut BytesMut)
        requires
            crate::wire::buffer_of(*old(buf)).len() + 16 <= isize::MAX,
        ensures
            crate::wire::buffer_of(*final(buf)) == crate::wire::buffer_of(*old(buf)) + header_bytes(
                *self,
            ),
    {
        let ghost before = crate::wire::buffer_of(*buf);
        buffer_reserve(buf, Header::SIZE);
        buffer_put_slice(buf, &self.magic);
        buffer_put_u8(buf, self.version);
        buffer_put_u8(buf, self.command.to_u8());
        let pl: u16 = if self.payload_length <= MAX_PAYLOAD_BYTES as u32 {
            self.payload_length as u16
        } else {
            MAX_PAYLOAD_BYTES as u16
        };
        buffer_put_u16_le(buf, pl);
        buffer_put_u64(buf, 0);
        assert(crate::wire::buffer_of(*buf) =~= before + header_bytes(*self));
    }

    /// Reads a header.
    pub fn decode(buf: Bytes) -> (r: Result<Header, FrameError>)
        ensures
            match header_fault(crate::wire::bytes_of(buf)) {
                Some(e) => r == Err::<Header, FrameError>(e),
                None => r matches Ok(h) && is_header_of(h, crate::wire::bytes_of(buf)),
            },
    {
        let ghost s = crate::wire::bytes_of(buf);
        let mut buf = buf;
        if bytes_len(&buf) < Header::SIZE {
            return Err(FrameError::TruncatedHeader);
        }
        let mut magic: [u8; 4] = [0u8; 4];
        bytes_copy_to_slice(&mut buf, &mut magic);
        if !is_magic(&magic) {
            return Err(FrameError::BadMagic);
        }
        let version = bytes_get_u8(&mut buf);
        if version != SYSX_VERSION {
            return Err(FrameError::VersionMismatch { got: version });
        }
        let cmd_byte = bytes_get_u8(&mut buf);
        let command = match Command::from_u8(cmd_byte) {
            Some(c) => c,
            None => {
                return Err(FrameError::UnknownCommand(cmd_byte));
            },
        };
        let payload_length: u32 = bytes_get_u16_le(&mut buf) as u32;
        let _reserved = bytes_get_u64(&mut buf);
        assert(command.code() == s[5]);
        assert(payload_length == declared_length(s));
        if payload_length as usize > MAX_PAYLOAD_BYTES {
            return Err(FrameError::PayloadTooLarge(payload_length as usize));
        }
        Ok(Header { magic, version, command, payload_length })
    }
}

fn is_magic(m: &[u8; 4]) -> (r: bool)
    ensures
        r == (m@ == SYSX_MAGIC@),
{
    let r = m[0] == 0x53 && m[1] == 0x59 && m[2] == 0x53 && m[3] == 0x58;
    proof {
        let magic = SYSX_MAGIC;
        assert(magic@ =~= seq![0x53u8, 0x59, 0x53, 0x58]);
        if r {
            assert(m@ =~= magic@);
        } else {
            assert(m@[0] != magic@[0] || m@[1] != magic@[1] || m@[2] != magic@[2] || m@[3]
                != magic@[3]);
        }
    }
    r
}

/// The frame of `h` and `payload` on the wire: the header, and of the payload no more than
/// the largest one.
pub open spec fn message_bytes(h: Header, payload: Seq<u8>) -> Seq<u8> {
    header_bytes(h) + payload.take(capped(payload.len()) as int)
}

/// A frame.
#[derive(Debug)]
pub struct Message {
    pub header: Header,
    pub payload: Bytes,
}

impl Clone for Message {
    fn clone(&self) -> (r: Message)
        ensures
            r.header == self.header,
            crate::wire::bytes_of(r.payload) == crate::wire::bytes_of(self.payload),
    {
        Message { header: self.header, payload: self.payload.clone() }
    }
}

impl Message {
    /// A frame of this protocol version around `payload`.
    pub fn new(command: Command, payload: Bytes) -> (r: Message)
        ensures
            r.payload == payload,
            r.header.magic@ == SYSX_MAGIC@,
            r.header.version == SYSX_VERSION,
            r.header.command == command,
            r.header.payload_length == capped(crate::wire::bytes_of(payload).len()),
    {
        let n: usize = bytes_len(&payload);
        let announced: u32 = if n <= MAX_PAYLOAD_BYTES {
            n as u32
        } else {
            MAX_PAYLOAD_BYTES as u32
        };
        Message { header: Header::new(command, announced), payload }
    }

    /// The frame on the wire: the header and the payload, cut down to the largest one.
    pub fn encode(&self) -> (r: Bytes)
        ensures
            crate::wire::bytes_of(r) == message_bytes(
                self.header,
                crate::wire::bytes_of(self.payload),
            ),
    {
        let payload = bytes_slice(&self.payload);
        let n: usize = if payload.len() <= MAX_PAYLOAD_BYTES {
            payload.len()
        } else {
            MAX_PAYLOAD_BYTES
        };
        let mut buf = buffer_with_capacity(Header::SIZE + n);
        self.header.encode(&mut buf);
        buffer_put_slice(&mut buf, slice_subrange(payload, 0, n));
        let r = buffer_freeze(buf);
        assert(crate::wire::bytes_of(r) =~= message_bytes(
            self.header,
            crate::wire::bytes_of(self.payload),
        ));
        r
    }
}

/// The frame that answers `request_command` with two bytes.
#[must_use]
pub fn encode_ipc_reply(request_command: Command, byte0: u8, byte1: u8) -> (r: Bytes)
    ensures
        crate::wire::bytes_of(r) == reply_bytes(request_command, byte0, byte1),
{
    let body: [u8; 2] = [byte0, byte1];
    let payload = bytes_copy_from_slice(&body);
    assert(crate::wire::bytes_of(payload) =~= seq![byte0, byte1]);
    Message::new(request_command, payload).encode()
}

/// A reply on the wire: a header that announces two bytes, and the two bytes.
pub open spec fn reply_bytes(command: Command, byte0: u8, byte1: u8) -> Seq<u8> {
    SYSX_MAGIC@ + seq![SYSX_VERSION, command.code()] + crate::wire::u16_le(2) + crate::wire::u64_be(
        0,
    ) + seq![byte0, byte1]
}

/// Why `s` does not start with a complete frame.
pub open spec fn frame_fault(s: Seq<u8>) -> Option<FrameError> {
    match header_fault(s) {
        Some(e) => Some(e),
        None => if s.len() < 16 + declared_length(s) {
            Some(FrameError::TruncatedHeader)
        } else {
            None
        },
    }
}

/// The payload of the frame at the start of `s`.
pub open spec fn frame_payload(s: Seq<u8>) -> Seq<u8> {
    s.subrange(16, (16 + declared_length(s)) as int)
}

/// Splits the frame at the start of `buf` into header and payload. A frame that is not
/// complete counts as truncated.
pub fn decode_frame(buf: &[u8]) -> (r: Result<(Header, &[u8]), FrameError>)
    ensures
        match frame_fault(buf@) {
            Some(e) => r == Err::<(Header, &[u8]), FrameError>(e),
            None => r matches Ok(f) && is_header_of(f.0, buf@) && f.1@ == frame_payload(buf@),
        },
{
    if buf.len() < Header::SIZE {
        return Err(FrameError::TruncatedHeader);
    }
    proof {
        assert(buf@.subrange(0, 16).take(4) =~= buf@.take(4));
    }
    let header = match Header::decode(
        bytes_copy_from_slice(slice_subrange(buf, 0, Header::SIZE)),
    ) {
        Ok(h) => h,
        Err(e) => {
            return Err(e);
        },
    };
    let total: usize = Header::SIZE + header.payload_length as usize;
    if buf.len() < total {
        return Err(FrameError::TruncatedHeader);
    }
    Ok((header, slice_subrange(buf, Header::SIZE, total)))
}

/// Who is at the other end of a control connection.
#[derive(Debug, Clone, Copy, PartialEq, Eq, Structural)]
pub struct PeerCredentials {
    pub pid: i32,
    pub uid: u32,
    pub gid: u32,
}

/// Takes what the kernel says of the peer; without an answer the peer is refused.
pub fn validate_peer_credentials(found: Option<PeerCredentials>) -> (r: Result<
    PeerCredentials,
    FrameError,
>)
    ensures
        r == match found {
            Some(c) => Ok::<PeerCredentials, FrameError>(c),
            None => Err::<PeerCredentials, FrameError>(FrameError::CredValidationFailed),
        },
{
    match found {
        Some(c) => Ok(c),
        None => Err(FrameError::CredValidationFailed),
    }
}

/// Whether a peer may command: root, or a member of the administrators' group.
pub fn peer_allowed_control(creds: &PeerCredentials, admin_gid: u32) -> (r: bool)
    ensures
        r == (creds.uid == 0 || creds.gid == admin_gid),
{
    creds.uid == 0 || creds.gid == admin_gid
}

/// Bounds of the control plane.
#[derive(Debug, Clone)]
pub struct CoreConfig {
    pub epoll_timeout_ms: u32,
    pub max_payload_bytes: usize,
    pub max_concurrent_fds: usize,
}

impl Default for CoreConfig {
    fn default() -> (r: CoreConfig)
        ensures
            r.epoll_timeout_ms == 5000,
            r.max_payload_bytes == MAX_PAYLOAD_BYTES,
            r.max_concurrent_fds == MAX_CONCURRENT_FDS,
    {
        CoreConfig {
            epoll_timeout_ms: 5000,
            max_payload_bytes: MAX_PAYLOAD_BYTES,
            max_concurrent_fds: MAX_CONCURRENT_FDS,
        }
    }
}

// ---------------------------------------------------------------------------
// Laws
// ---------------------------------------------------------------------------

/// Law: no two commands share a byte.
pub proof fn lemma_codes_distinct(a: Command, b: Command)
    requires
        a.code() == b.code(),
    ensures
        a == b,
{
}

/// Law: what was written is read back. A header of this protocol version, followed by at
/// least as many bytes as it announces, is a complete frame; it reads as the same header,
/// and its payload is the announced number of bytes.
pub proof fn lemma_frame_reads_back(h: Header, tail: Seq<u8>)
    requires
        h.magic@ == SYSX_MAGIC@,
        h.version == SYSX_VERSION,
        h.payload_length <= MAX_PAYLOAD_BYTES,
        tail.len() >= h.payload_length,
    ensures
        frame_fault(header_bytes(h) + tail) is None,
        is_header_of(h, header_bytes(h) + tail),
        frame_payload(header_bytes(h) + tail) == tail.take(h.payload_length as int),
{
    let s = header_bytes(h) + tail;
    let n = h.payload_length as u16;
    assert(h.magic@.len() == 4);
    assert(header_bytes(h).len() == 16);
    assert(s.take(4) =~= SYSX_MAGIC@);
    assert(s[4] == h.version);
    assert(s[5] == h.command.code());
    assert(s[6] == (n % 256) as u8);
    assert(s[7] == (n / 256) as u8);
    assert(declared_length(s) == h.payload_length);
    assert(frame_payload(s) =~= tail.take(h.payload_length as int));
}

/// Law: a frame around `payload` is as long as its header announces, and reads back as the
/// command it was made for and, up to the largest payload, as `payload` itself. Of a longer
/// payload neither the header nor the frame holds more than the largest payload.
pub proof fn lemma_message_reads_back(h: Header, payload: Seq<u8>)
    requires
        h.magic@ == SYSX_MAGIC@,
        h.version == SYSX_VERSION,
        h.payload_length == capped(payload.len()),
    ensures
        message_bytes(h, payload).len() == 16 + h.payload_length,
        message_bytes(h, payload).len() <= 16 + MAX_PAYLOAD_BYTES,
        frame_fault(message_bytes(h, payload)) is None,
        is_header_of(h, message_bytes(h, payload)),
        frame_payload(message_bytes(h, payload)) == payload.take(h.payload_length as int),
        payload.len() <= MAX_PAYLOAD_BYTES ==> frame_payload(message_bytes(h, payload)) == payload,
{
    let sent = payload.take(h.payload_length as int);
    lemma_frame_reads_back(h, sent);
    assert(sent.take(h.payload_length as int) =~= sent);
    assert(message_bytes(h, payload) =~= header_bytes(h) + sent);
    if payload.len() <= MAX_PAYLOAD_BYTES {
        assert(sent =~= payload);
    }
}

/// Law: whatever the header says, no frame goes out that is longer than the largest one, nor
/// one that announces more than the largest payload.
pub proof fn lemma_frame_bounded(h: Header, payload: Seq<u8>)
    ensures
        message_bytes(h, payload).len() <= 16 + MAX_PAYLOAD_BYTES,
        declared_length(message_bytes(h, payload)) == capped(h.payload_length as nat),
        declared_length(message_bytes(h, payload)) <= MAX_PAYLOAD_BYTES,
{
    let s = message_bytes(h, payload);
    let n = capped(h.payload_length as nat) as u16;
    assert(h.magic@.len() == 4);
    assert(s[6] == (n % 256) as u8);
    assert(s[7] == (n / 256) as u8);
}

/// Law: no frame that is accepted has more payload than is allowed.
pub proof fn lemma_payload_bounded(s: Seq<u8>)
    requires
        frame_fault(s) is None,
    ensures
        frame_payload(s).len() == declared_length(s),
        frame_payload(s).len() <= MAX_PAYLOAD_BYTES,
{
}

/// Law: a reply reads back as the command it answers and its two bytes.
pub proof fn lemma_reply_reads_back(command: Command, byte0: u8, byte1: u8)
    ensures
        frame_fault(reply_bytes(command, byte0, byte1)) is None,
        reply_bytes(command, byte0, byte1)[5] == command.code(),
        frame_payload(reply_bytes(command, byte0, byte1)) == seq![byte0, byte1],
{
    let s = reply_bytes(command, byte0, byte1);
    assert(s.take(4) =~= SYSX_MAGIC@);
    assert(s[4] == SYSX_VERSION);
    assert(s[5] == command.code());
    assert(s[6] == 2);
    assert(s[7] == 0);
    assert(declared_length(s) == 2);
    assert(frame_payload(s) =~= seq![byte0, byte1]);
}

/// Law: of a frame that arrives in pieces every part that is not complete reads as
/// truncated, and as nothing else: it waits for the rest.
pub proof fn lemma_partial_frame_truncated(s: Seq<u8>, k: int)
    requires
        frame_fault(s) is None,
        0 <= k < 16 + declared_length(s),
    ensures
        frame_fault(s.take(k)) == Some(FrameError::TruncatedHeader),
{
    if k >= 16 {
        assert(s.take(k).take(4) =~= s.take(4));
    }
}

} // verus!
