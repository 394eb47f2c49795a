//! What the control protocol promises, said over single bytes.
use bytes::{Bytes, BytesMut};
use vstd::prelude::*;

use crate::ipc::{
    decode_frame, encode_ipc_reply, names_no_command, peer_allowed_control,
    validate_peer_credentials, Command, CoreConfig, FrameError, Header, Message, PeerCredentials,
    SYSX_MAGIC,
};
use crate::wire::{buffer_of, bytes_of};

verus! {

// ---------------------------------------------------------------------------
// Commands
// ---------------------------------------------------------------------------

/// Law: the commands stand as the tens of sixteen, from start to reboot, and each byte is read
/// as the command that it was written for. No other byte is a command.
pub proof fn lemma_command_bytes(c: Command, b: u8, back: Option<Command>)
    requires
        call_ensures(Command::from_u8, (b,), back),
    ensures
        call_ensures(Command::to_u8, (&c,), b) ==> back == Some(c),
        back is Some <==> b == 0x10 || b == 0x20 || b == 0x30 || b == 0x40 || b == 0x50 || b == 0x60,
        back == Some(Command::Start) <==> b == 0x10,
        back == Some(Command::Stop) <==> b == 0x20,
        back == Some(Command::Status) <==> b == 0x30,
        back == Some(Command::Reset) <==> b == 0x40,
        back == Some(Command::Poweroff) <==> b == 0x50,
        back == Some(Command::Reboot) <==> b == 0x60,
{
    if back is None {
        assert(names_no_command(b));
        assert(Command::Start.code() != b);
        assert(Command::Stop.code() != b);
        assert(Command::Status.code() != b);
        assert(Command::Reset.code() != b);
        assert(Command::Poweroff.code() != b);
        assert(Command::Reboot.code() != b);
    }
}

/// Law: the byte of a command.
pub proof fn lemma_written_command(c: Command, b: u8)
    requires
        call_ensures(Command::to_u8, (&c,), b),
    ensures
        b == (match c {
            Command::Start => 0x10u8,
            Command::Stop => 0x20u8,
            Command::Status => 0x30u8,
            Command::Reset => 0x40u8,
            Command::Poweroff => 0x50u8,
            Command::Reboot => 0x60u8,
        }),
{
}

// ---------------------------------------------------------------------------
// Frames
// ---------------------------------------------------------------------------

/// Whether `s` starts with the four letters `SYSX`.
pub open spec fn is_marked(s: Seq<u8>) -> bool {
    s[0] == 0x53 && s[1] == 0x59 && s[2] == 0x53 && s[3] == 0x58
}

/// Whether `b` is the byte of a command.
pub open spec fn is_command(b: u8) -> bool {
    b == 0x10 || b == 0x20 || b == 0x30 || b == 0x40 || b == 0x50 || b == 0x60
}

/// The number that stands in the two length bytes of `s`, the low byte first.
pub open spec fn announced(s: Seq<u8>) -> int {
    s[6] + s[7] * 256
}

proof fn lemma_magic(s: Seq<u8>)
    requires
        s.len() >= 4,
    ensures
        (s.take(4) == SYSX_MAGIC@) == is_marked(s),
        SYSX_MAGIC@ == seq![0x53u8, 0x59u8, 0x53u8, 0x58u8],
{
    let magic = SYSX_MAGIC;
    assert(magic@ =~= seq![0x53u8, 0x59, 0x53, 0x58]);
    if is_marked(s) {
        assert(s.take(4) =~= magic@);
    } else {
        assert(s.take(4)[0] == s[0] && s.take(4)[1] == s[1] && s.take(4)[2] == s[2] && s.take(4)[3]
            == s[3]);
    }
}

proof fn lemma_command_byte(b: u8)
    ensures
        (forall|c: Command| (#[trigger] c.code()) != b) == !is_command(b),
{
    assert(Command::Start.code() == 0x10);
    assert(Command::Stop.code() == 0x20);
    assert(Command::Status.code() == 0x30);
    assert(Command::Reset.code() == 0x40);
    assert(Command::Poweroff.code() == 0x50);
    assert(Command::Reboot.code() == 0x60);
    if is_command(b) {
        assert(exists|c: Command| (#[trigger] c.code()) == b);
    }
}

/// Law: a frame is accepted exactly if it is marked, of version one, a known command, announces
/// at most 4096 bytes and holds them. What is accepted is split behind the sixteenth byte, and
/// what stands behind the announced bytes is left alone.
pub proof fn lemma_frame_exactly<'a>(buf: &'a [u8], r: Result<(Header, &'a [u8]), FrameError>)
    requires
        call_ensures(decode_frame, (buf,), r),
    ensures
        r is Ok <==> buf@.len() >= 16 && is_marked(buf@) && buf@[4] == 1 && is_command(buf@[5])
            && announced(buf@) <= 4096 && buf@.len() >= 16 + announced(buf@),
        r matches Ok(f) ==> {
            &&& f.0.payload_length == announced(buf@)
            &&& f.0.version == 1
            &&& f.0.magic@ == seq![0x53u8, 0x59u8, 0x53u8, 0x58u8]
            &&& f.0.command == Command::Start <==> buf@[5] == 0x10
            &&& f.0.command == Command::Stop <==> buf@[5] == 0x20
            &&& f.0.command == Command::Status <==> buf@[5] == 0x30
            &&& f.0.command == Command::Reset <==> buf@[5] == 0x40
            &&& f.0.command == Command::Poweroff <==> buf@[5] == 0x50
            &&& f.0.command == Command::Reboot <==> buf@[5] == 0x60
            &&& f.1@.len() == announced(buf@)
            &&& forall|i: int| 0 <= i < f.1@.len() ==> #[trigger] f.1@[i] == buf@[16 + i]
        },
{
    if buf@.len() >= 16 {
        lemma_magic(buf@);
        lemma_command_byte(buf@[5]);
    }
}

/// Law: why a frame is refused. The first fault counts, from front to back; and bytes that are
/// still missing, of the header or of the payload, are always a truncation.
pub proof fn lemma_refusal_exactly<'a>(buf: &'a [u8], r: Result<(Header, &'a [u8]), FrameError>)
    requires
        call_ensures(decode_frame, (buf,), r),
    ensures
        buf@.len() < 16 ==> r == Err::<(Header, &'a [u8]), FrameError>(FrameError::TruncatedHeader),
        buf@.len() >= 16 ==> ({
            let good_magic = is_marked(buf@);
            let good_version = good_magic && buf@[4] == 1;
            let good_command = good_version && is_command(buf@[5]);
            let good_length = good_command && announced(buf@) <= 4096;
            &&& r == Err::<(Header, &'a [u8]), FrameError>(FrameError::BadMagic) <==> !good_magic
            &&& good_magic && !good_version <==> r == Err::<(Header, &'a [u8]), FrameError>(
                FrameError::VersionMismatch { got: buf@[4] },
            )
            &&& good_version && !good_command <==> r == Err::<(Header, &'a [u8]), FrameError>(
                FrameError::UnknownCommand(buf@[5]),
            )
            &&& good_command && !good_length <==> r == Err::<(Header, &'a [u8]), FrameError>(
                FrameError::PayloadTooLarge(announced(buf@) as usize),
            )
            &&& good_length && buf@.len() < 16 + announced(buf@) <==> r == Err::<
                (Header, &'a [u8]),
                FrameError,
            >(FrameError::TruncatedHeader)
        }),
{
    if buf@.len() >= 16 {
        lemma_magic(buf@);
        lemma_command_byte(buf@[5]);
    }
}

/// Law: a header that was read says what its bytes say, and is refused as the frame is.
pub proof fn lemma_header_exactly(buf: Bytes, r: Result<Header, FrameError>)
    requires
        call_ensures(Header::decode, (buf,), r),
    ensures
        r is Ok <==> bytes_of(buf).len() >= 16 && is_marked(bytes_of(buf)) && bytes_of(buf)[4] == 1
            && is_command(bytes_of(buf)[5]) && announced(bytes_of(buf)) <= 4096,
        r matches Ok(h) ==> h.payload_length == announced(bytes_of(buf)),
        bytes_of(buf).len() < 16 ==> r == Err::<Header, FrameError>(FrameError::TruncatedHeader),
{
    if bytes_of(buf).len() >= 16 {
        lemma_magic(bytes_of(buf));
        lemma_command_byte(bytes_of(buf)[5]);
    }
}

/// Law: a new header is of this protocol, for the command that was asked for, and announces no
/// more than 4096 bytes.
pub proof fn lemma_new_header(command: Command, n: u32, h: Header)
    requires
        call_ensures(Header::new, (command, n), h),
    ensures
        h.magic@ == seq![0x53u8, 0x59u8, 0x53u8, 0x58u8],
        h.version == 1,
        h.command == command,
        n <= 4096 ==> h.payload_length == n,
        n > 4096 ==> h.payload_length == 4096,
{
    lemma_magic(h.magic@);
}

/// Law: a header is appended as sixteen bytes: the four letters, the version, the byte of the
/// command, the length with its low byte first, and eight zeros.
pub proof fn lemma_header_layout(h: Header, buf: &mut BytesMut, code: u8, i: int)
    requires
        call_ensures(Header::encode, (&h, buf), ()),
        call_ensures(Command::to_u8, (&h.command,), code),
    ensures
        ({
            let before = buffer_of(*old(buf));
            let after = buffer_of(*final(buf));
            let n = before.len() as int;
            &&& after.len() == n + 16
            &&& after.take(n) == before
            &&& 0 <= i < 4 ==> after[n + i] == h.magic@[i]
            &&& after[n + 4] == h.version
            &&& after[n + 5] == code
            &&& h.payload_length <= 4096 ==> after[n + 6] + after[n + 7] * 256 == h.payload_length
            &&& h.payload_length > 4096 ==> after[n + 6] + after[n + 7] * 256 == 4096
            &&& 8 <= i < 16 ==> after[n + i] == 0
        }),
{
    let before = buffer_of(*old(buf));
    let after = buffer_of(*final(buf));
    let n = before.len() as int;
    let hb = crate::ipc::header_bytes(h);
    assert(h.magic@.len() == 4);
    assert(after.take(n) =~= before);
    let m = crate::ipc::capped(h.payload_length as nat) as u16;
    assert(after[n + 4] == hb[4]);
    assert(after[n + 5] == hb[5]);
    assert(after[n + 6] == (m % 256) as u8);
    assert(after[n + 7] == (m / 256) as u8);
    if 0 <= i < 4 {
        assert(after[n + i] == hb[i]);
    }
    if 8 <= i < 16 {
        assert(after[n + i] == crate::wire::u64_be(0)[i - 8]);
    }
}

/// Law: a frame that was written is read back as the command that it was made for and as the
/// payload, up to 4096 bytes of it; it is as long as its header says, and its reserved bytes
/// are zero.
pub proof fn lemma_message_round_trip<'a>(
    command: Command,
    payload: Bytes,
    m: Message,
    sent: Bytes,
    buf: &'a [u8],
    r: Result<(Header, &'a [u8]), FrameError>,
)
    requires
        call_ensures(Message::new, (command, payload), m),
        call_ensures(Message::encode, (&m,), sent),
        buf@ == bytes_of(sent),
        call_ensures(decode_frame, (buf,), r),
    ensures
        r matches Ok(f) && f.0.command == command && f.1@ == bytes_of(payload).take(
            if bytes_of(payload).len() <= 4096 {
                bytes_of(payload).len() as int
            } else {
                4096
            },
        ),
        bytes_of(sent).len() == 16 + (if bytes_of(payload).len() <= 4096 {
            bytes_of(payload).len() as int
        } else {
            4096
        }),
        forall|i: int| 8 <= i < 16 ==> #[trigger] bytes_of(sent)[i] == 0,
{
    let p = bytes_of(payload);
    crate::ipc::lemma_message_reads_back(m.header, p);
    let s = bytes_of(sent);
    assert(s =~= crate::ipc::message_bytes(m.header, p));
    assert(m.header.magic@.len() == 4);
    let z = crate::wire::u64_be(0);
    assert forall|i: int| 8 <= i < 16 implies #[trigger] s[i] == 0 by {
        assert(s[i] == z[i - 8]);
    }
}

/// Law: a reply is eighteen bytes long and reads back as its two bytes.
pub proof fn lemma_reply_round_trip<'a>(
    command: Command,
    byte0: u8,
    byte1: u8,
    sent: Bytes,
    buf: &'a [u8],
    r: Result<(Header, &'a [u8]), FrameError>,
)
    requires
        call_ensures(encode_ipc_reply, (command, byte0, byte1), sent),
        buf@ == bytes_of(sent),
        call_ensures(decode_frame, (buf,), r),
    ensures
        bytes_of(sent).len() == 18,
        r matches Ok(f) && f.0.command == command && f.1@ == seq![byte0, byte1],
{
    crate::ipc::lemma_reply_reads_back(command, byte0, byte1);
    let magic = SYSX_MAGIC;
    assert(magic@.len() == 4);
}

// ---------------------------------------------------------------------------
// Peers
// ---------------------------------------------------------------------------

/// Law: root may command, and so may the group of administrators; nobody else may, and nobody
/// whom the kernel does not vouch for.
pub proof fn lemma_who_may_command(
    found: Option<PeerCredentials>,
    admin_gid: u32,
    c: Result<PeerCredentials, FrameError>,
    peer: PeerCredentials,
    allowed: bool,
)
    requires
        call_ensures(validate_peer_credentials, (found,), c),
        call_ensures(peer_allowed_control, (&peer, admin_gid), allowed),
    ensures
        found is None <==> c == Err::<PeerCredentials, FrameError>(
            FrameError::CredValidationFailed,
        ),
        found matches Some(p) ==> c == Ok::<PeerCredentials, FrameError>(p),
        allowed <==> (peer.uid == 0 || peer.gid == admin_gid),
{
}

/// Law: the bounds that hold without settings.
pub proof fn lemma_bounds(r: CoreConfig)
    requires
        call_ensures(CoreConfig::default, (), r),
    ensures
        r.epoll_timeout_ms == 5000,
        r.max_payload_bytes == 4096,
        r.max_concurrent_fds == 64,
{
}

} // verus!
