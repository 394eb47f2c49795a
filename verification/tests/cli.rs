use bytes::Bytes;
use sysx::cli::{cli_request, reply_line, request_frame, CliRequest};
use sysx::ipc::{decode_frame, encode_ipc_reply, Command, Message};

fn args(list: &[&str]) -> Vec<String> {
    list.iter().map(|a| a.to_string()).collect()
}

fn asked(list: &[&str], env: Option<&str>) -> Option<CliRequest> {
    cli_request(&args(list), env.map(|e| e.to_string()))
}

#[test]
fn commands_with_a_service() {
    let words = vec![
        ("start", Command::Start),
        ("stop", Command::Stop),
        ("status", Command::Status),
        ("reset", Command::Reset),
    ];
    for (word, command) in words {
        let q = asked(&["sysx", word, "web"], None).unwrap();
        assert_eq!(q.command, command);
        assert_eq!(q.service, "web");
        assert_eq!(q.socket, "/run/sysx/control.sock");
        assert!(asked(&["sysx", word], None).is_none());
        assert!(asked(&["sysx", word, "a", "b"], None).is_none());
        let frame = request_frame(&q).unwrap();
        let (h, pl) = decode_frame(&frame).unwrap();
        assert_eq!(h.command, command);
        assert_eq!(pl, b"web");
    }
}

#[test]
fn commands_to_the_machine() {
    for (word, command) in [("poweroff", Command::Poweroff), ("reboot", Command::Reboot)] {
        let q = asked(&["sysx", word], None).unwrap();
        assert_eq!(q.command, command);
        let frame = request_frame(&q).unwrap();
        let (h, pl) = decode_frame(&frame).unwrap();
        assert_eq!(h.command, command);
        assert!(pl.is_empty());
        assert!(asked(&["sysx", word, "now"], None).is_none());
    }
}

#[test]
fn where_the_supervisor_listens() {
    let q = asked(&["sysx", "--socket", "/s", "status", "web"], Some("/env")).unwrap();
    assert_eq!(q.socket, "/s");
    assert_eq!(q.service, "web");
    let q = asked(&["sysx", "status", "web"], Some("/env")).unwrap();
    assert_eq!(q.socket, "/env");
}

#[test]
fn command_lines_that_ask_for_nothing() {
    assert!(asked(&[], None).is_none());
    assert!(asked(&["sysx"], None).is_none());
    assert!(asked(&["sysx", "--socket"], None).is_none());
    assert!(asked(&["sysx", "--socket", "/s"], None).is_none());
    assert!(asked(&["sysx", "restart", "web"], None).is_none());
}

#[test]
fn names_that_do_not_fit_a_frame() {
    let q = |n: usize| CliRequest {
        socket: String::new(),
        command: Command::Start,
        service: "ä".repeat(n),
    };
    assert!(request_frame(&q(2048)).is_some());
    assert!(request_frame(&q(2049)).is_none());
}

#[test]
fn replies_in_a_line() {
    let reply = encode_ipc_reply(Command::Status, 0x05, 0x1f);
    assert_eq!(reply_line(&reply).unwrap(), "status [S:0x05, R:0x1f]");
    assert_eq!(reply_line(&reply[..17]).unwrap_err(), "truncated header");
    assert_eq!(reply_line(b"").unwrap_err(), "truncated header");
    let long = Message::new(Command::Stop, Bytes::from_static(b"abc")).encode();
    assert_eq!(reply_line(&long).unwrap_err(), "a reply of 3 bytes");
    for word in ["start", "stop", "status", "reset"] {
        let q = asked(&["sysx", word, "web"], None).unwrap();
        assert_eq!(q.command.word(), word);
    }
    for word in ["poweroff", "reboot"] {
        assert_eq!(asked(&["sysx", word], None).unwrap().command.word(), word);
    }
}
