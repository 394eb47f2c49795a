//! The operator's client: from a command line to a request.
use bytes::Bytes;
use vstd::prelude::*;

use crate::boot::CONTROL_SOCKET_PATH;
use crate::ipc::{decode_frame, Command, Message, MAX_PAYLOAD_BYTES};
use crate::text::{decimal_string, hex_byte_string, push_text, same_text};
use crate::wire::bytes_copy_from_slice;

verus! {

/// What the operator asks for.
#[derive(Debug)]
pub struct CliRequest {
    /// Where the supervisor listens.
    pub socket: String,
    pub command: Command,
    /// The service, or nothing for a command to the machine.
    pub service: String,
}

/// The command that a word stands for, and whether a service follows it.
pub open spec fn command_word(word: Seq<char>) -> Option<(Command, bool)> {
    if word == "start"@ {
        Some((Command::Start, true))
    } else if word == "stop"@ {
        Some((Command::Stop, true))
    } else if word == "status"@ {
        Some((Command::Status, true))
    } else if word == "reset"@ {
        Some((Command::Reset, true))
    } else if word == "poweroff"@ {
        Some((Command::Poweroff, false))
    } else if word == "reboot"@ {
        Some((Command::Reboot, false))
    } else {
        None
    }
}

/// How many words the option for the socket takes up.
pub open spec fn option_words(args: Seq<String>) -> int {
    if args.len() >= 3 && args[1]@ == "--socket"@ {
        2
    } else {
        0
    }
}

/// Whether the command line `args`, with the program first, is well formed: at most the
/// option for the socket, a command, and a service exactly if the command takes one.
pub open spec fn is_command_line(args: Seq<String>) -> bool {
    let k = 1 + option_words(args);
    args.len() > k && (command_word(args[k]@) matches Some(c) && args.len() == k + 1 + if c.1 {
        1int
    } else {
        0int
    })
}

/// Whether `r` is what the command line asks for. The option names the socket, else the
/// environment does, else it is the default.
pub open spec fn is_asked_on(args: Seq<String>, socket_env: Option<String>, r: CliRequest) -> bool {
    let k = 1 + option_words(args);
    let c = command_word(args[k]@)->0;
    &&& r.socket@ == if k > 1 {
        args[2]@
    } else {
        match socket_env {
            Some(s) => s@,
            None => CONTROL_SOCKET_PATH@,
        }
    }
    &&& r.command == c.0
    &&& r.service@ == if c.1 {
        args[k + 1]@
    } else {
        Seq::empty()
    }
}

fn read_command(word: &str) -> (r: Option<(Command, bool)>)
    ensures
        r == command_word(word@),
{
    if same_text(word, "start") {
        Some((Command::Start, true))
    } else if same_text(word, "stop") {
        Some((Command::Stop, true))
    } else if same_text(word, "status") {
        Some((Command::Status, true))
    } else if same_text(word, "reset") {
        Some((Command::Reset, true))
    } else if same_text(word, "poweroff") {
        Some((Command::Poweroff, false))
    } else if same_text(word, "reboot") {
        Some((Command::Reboot, false))
    } else {
        None
    }
}

/// Reads the command line of the client.
pub fn cli_request(args: &Vec<String>, socket_env: Option<String>) -> (r: Option<CliRequest>)
    ensures
        match r {
            Some(q) => is_command_line(args@) && is_asked_on(args@, socket_env, q),
            None => !is_command_line(args@),
        },
{
    let mut at: usize = 1;
    let mut socket = match socket_env {
        Some(s) => s,
        None => CONTROL_SOCKET_PATH.to_owned(),
    };
    if args.len() >= 3 && same_text(args[1].as_str(), "--socket") {
        socket = args[2].as_str().to_owned();
        at = 3;
    }
    if at >= args.len() {
        return None;
    }
    match read_command(args[at].as_str()) {
        None => None,
        Some((command, true)) => {
            if args.len() != at + 2 {
                return None;
            }
            Some(CliRequest { socket, command, service: args[at + 1].as_str().to_owned() })
        },
        Some((command, false)) => {
            if args.len() != at + 1 {
                return None;
            }
            Some(CliRequest { socket, command, service: String::new() })
        },
    }
}

/// Whether `frame` is a header of this protocol version for `command`, and `payload`.
pub open spec fn is_frame_around(command: Command, payload: Seq<u8>, frame: Seq<u8>) -> bool {
    exists|h: crate::ipc::Header|
        h.magic@ == crate::ipc::SYSX_MAGIC@ && h.version == crate::ipc::SYSX_VERSION && h.command
            == command && h.payload_length == payload.len() && frame
            == #[trigger] crate::ipc::header_bytes(h) + payload
}

/// The request on the wire. A service whose name does not fit a frame has none.
pub fn request_frame(request: &CliRequest) -> (r: Option<Bytes>)
    ensures
        match r {
            Some(b) => {
                let payload = vstd::utf8::encode_utf8(request.service@);
                &&& payload.len() <= MAX_PAYLOAD_BYTES
                &&& is_frame_around(request.command, payload, crate::wire::bytes_of(b))
            },
            None => vstd::utf8::encode_utf8(request.service@).len() > MAX_PAYLOAD_BYTES,
        },
{
    let bytes = request.service.as_str().as_bytes();
    if bytes.len() > MAX_PAYLOAD_BYTES {
        return None;
    }
    let message = Message::new(request.command, bytes_copy_from_slice(bytes));
    let r = message.encode();
    proof {
        let payload = vstd::utf8::encode_utf8(request.service@);
        assert(crate::wire::bytes_of(r) =~= crate::ipc::header_bytes(message.header) + payload);
    }
    Some(r)
}

/// What the operator is told of a reply of two bytes to `command`.
pub open spec fn reply_text(command: Command, b0: u8, b1: u8) -> Seq<char> {
    command.word_text() + " [S:"@ + crate::text::hex_byte(b0) + ", R:"@ + crate::text::hex_byte(b1)
        + "]"@
}

/// Whether `line` is what the operator is told of a reply of two bytes to the command with the
/// byte `code`.
pub open spec fn tells_reply(code: u8, b0: u8, b1: u8, line: Seq<char>) -> bool {
    exists|c: Command| (#[trigger] c.code()) == code && line == reply_text(c, b0, b1)
}

/// Reads the answer of the supervisor: the line for the operator, or what is wrong with it.
pub fn reply_line(answer: &[u8]) -> (r: Result<String, String>)
    ensures
        match crate::ipc::frame_fault(answer@) {
            Some(e) => r matches Err(m) && m@ == e.text(),
            None => {
                let body = crate::ipc::frame_payload(answer@);
                if body.len() == 2 {
                    r matches Ok(line) && tells_reply(answer@[5], body[0], body[1], line@)
                } else {
                    r matches Err(m) && m@ == "a reply of "@ + crate::text::decimal(body.len())
                        + " bytes"@
                }
            },
        },
{
    match decode_frame(answer) {
        Err(e) => Err(e.message()),
        Ok((header, body)) => {
            if body.len() == 2 {
                let mut m = header.command.word().to_owned();
                push_text(&mut m, " [S:");
                let h = hex_byte_string(body[0]);
                push_text(&mut m, h.as_str());
                push_text(&mut m, ", R:");
                let h = hex_byte_string(body[1]);
                push_text(&mut m, h.as_str());
                push_text(&mut m, "]");
                assert(header.command.code() == answer@[5]);
                Ok(m)
            } else {
                let mut m = "a reply of ".to_owned();
                let n = decimal_string(body.len() as u64);
                push_text(&mut m, n.as_str());
                push_text(&mut m, " bytes");
                Err(m)
            }
        },
    }
}

/// Law: the word for a command is the word that asks for it.
pub proof fn lemma_words_agree(c: Command)
    ensures
        command_word(c.word_text()) matches Some(w) && w.0 == c,
{
    reveal_strlit("start");
    reveal_strlit("stop");
    reveal_strlit("status");
    reveal_strlit("reset");
    reveal_strlit("poweroff");
    reveal_strlit("reboot");
    assert("start"@.len() == 5 && "reset"@.len() == 5 && "start"@[0] != "reset"@[0]);
    assert("status"@.len() == 6 && "reboot"@.len() == 6 && "status"@[0] != "reboot"@[0]);
    assert("stop"@.len() == 4 && "poweroff"@.len() == 8);
}

/// Law: the supervisor understands the client. The frame of a request is valid, stands for
/// the command that was asked for, and names the service that was named.
pub proof fn lemma_request_is_understood(h: crate::ipc::Header, service: Seq<char>)
    requires
        h.magic@ == crate::ipc::SYSX_MAGIC@,
        h.version == crate::ipc::SYSX_VERSION,
        h.payload_length == vstd::utf8::encode_utf8(service).len(),
        vstd::utf8::encode_utf8(service).len() <= MAX_PAYLOAD_BYTES,
    ensures
        ({
            let frame = crate::ipc::header_bytes(h) + vstd::utf8::encode_utf8(service);
            &&& crate::ipc::frame_fault(frame) is None
            &&& crate::ipc::is_header_of(h, frame)
            &&& crate::schema::is_service_name(service) ==> crate::reactor::requested_name(
                h.payload_length,
                crate::ipc::frame_payload(frame),
            ) == Some(service)
        }),
{
    let payload = vstd::utf8::encode_utf8(service);
    crate::ipc::lemma_frame_reads_back(h, payload);
    assert(payload.take(h.payload_length as int) =~= payload);
    if crate::schema::is_service_name(service) {
        lemma_name_is_read(service);
    }
}

proof fn lemma_name_is_read(service: Seq<char>)
    requires
        crate::schema::is_service_name(service),
    ensures
        vstd::utf8::encode_utf8(service).len() > 0,
        vstd::utf8::valid_utf8(vstd::utf8::encode_utf8(service)),
        vstd::utf8::decode_utf8(vstd::utf8::encode_utf8(service)) == service,
{
    vstd::utf8::encode_utf8_valid_utf8(service);
    vstd::utf8::encode_utf8_decode_utf8(service);
    if vstd::utf8::encode_utf8(service).len() == 0 {
        assert(vstd::utf8::decode_utf8(vstd::utf8::encode_utf8(service)).len() == 0);
    }
}

} // verus!
