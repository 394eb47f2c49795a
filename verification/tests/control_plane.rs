use bytes::Bytes;

use sysx::control_plane::{
    Admission, ClientRead, ClientStep, ControlPlane, ReadGate, MAX_FRAME_BYTES,
};
use sysx::ipc::{Command, Message, PeerCredentials, MAX_CONCURRENT_FDS};
use sysx::recovery::Moment;

const ROOT: PeerCredentials = PeerCredentials { pid: 1, uid: 0, gid: 0 };

fn ms(n: u64) -> Moment {
    Moment { nanos: n * 1_000_000 }
}

fn frame(command: Command, payload: &'static [u8]) -> Vec<u8> {
    Message::new(command, Bytes::from_static(payload)).encode().to_vec()
}

fn one_client(fd: i32) -> ControlPlane {
    let mut cp = ControlPlane::new();
    assert_eq!(cp.accept_client(fd, Some(ROOT), 5), Admission::Admitted);
    cp
}

#[test]
fn strangers_are_turned_away() {
    let mut cp = ControlPlane::new();
    let c = PeerCredentials { pid: 9, uid: 1000, gid: 100 };
    assert_eq!(cp.accept_client(7, None, 100), Admission::Unauthorized);
    assert_eq!(cp.accept_client(7, Some(c), 101), Admission::Unauthorized);
    assert_eq!(cp.clients.len(), 0);
    assert_eq!(cp.accept_client(7, Some(c), 100), Admission::Admitted);
    assert_eq!(cp.accept_client(8, Some(ROOT), 100), Admission::Admitted);
    assert_eq!(cp.clients.len(), 2);
}

#[test]
fn the_pool_is_bounded() {
    let mut cp = ControlPlane::new();
    for fd in 0..MAX_CONCURRENT_FDS as i32 {
        assert!(cp.accept_wanted());
        assert_eq!(cp.accept_client(fd, Some(ROOT), 5), Admission::Admitted);
    }
    assert!(!cp.accept_wanted());
    assert!(!cp.listening);
    assert!(cp.remove_client(3).is_some());
    assert!(cp.listening);
    assert!(cp.accept_wanted());
    assert!(cp.remove_client(3).is_none());
}

#[test]
fn a_request_in_one_piece() {
    let mut cp = one_client(7);
    assert_eq!(cp.before_read(7, ms(0)), ReadGate::Read);
    let step =
        cp.on_client_readable(7, ClientRead::Bytes(frame(Command::Stop, b"web")), ms(0), 100);
    match step {
        ClientStep::Request { header, payload } => {
            assert_eq!(header.command, Command::Stop);
            assert_eq!(payload, b"web");
        }
        _ => panic!("no request"),
    }
    assert!(cp.clients.is_empty());
    assert_eq!(cp.before_read(7, ms(0)), ReadGate::Unknown);
}

#[test]
fn a_request_byte_by_byte() {
    let mut cp = one_client(7);
    let f = frame(Command::Status, b"web");
    let last = f.len() - 1;
    for (i, b) in f.iter().enumerate() {
        let step = cp.on_client_readable(7, ClientRead::Bytes(vec![*b]), ms(i as u64), 100);
        if i < last {
            assert!(matches!(step, ClientStep::Wait));
            let conn = cp.clients.get(&7).unwrap();
            assert_eq!(conn.buf.len(), i + 1);
            assert_eq!(conn.asm_deadline, Some(ms(100)));
        } else {
            assert!(matches!(step, ClientStep::Request { .. }));
        }
    }
}

#[test]
fn what_is_no_frame_is_cut_off() {
    let mut cp = one_client(7);
    let mut f = frame(Command::Start, b"web");
    f[0] = b'T';
    let step = cp.on_client_readable(7, ClientRead::Bytes(f), ms(0), 100);
    assert!(matches!(step, ClientStep::Malformed));
    assert!(cp.clients.is_empty());
}

#[test]
fn too_many_bytes_are_cut_off() {
    let mut cp = one_client(7);
    let mut f = frame(Command::Start, b"web");
    f.resize(MAX_FRAME_BYTES, 0);
    let mut cp2 = one_client(7);
    let step = cp2.on_client_readable(7, ClientRead::Bytes(f.clone()), ms(0), 100);
    assert!(matches!(step, ClientStep::Request { .. }));
    f.push(0);
    let step = cp.on_client_readable(7, ClientRead::Bytes(f), ms(0), 100);
    assert!(matches!(step, ClientStep::Malformed));
    assert_eq!(MAX_FRAME_BYTES, 4112);
}

#[test]
fn reads_without_bytes() {
    let mut cp = one_client(7);
    assert!(matches!(
        cp.on_client_readable(7, ClientRead::WouldBlock, ms(0), 100),
        ClientStep::Wait
    ));
    assert_eq!(cp.clients.get(&7).unwrap().asm_deadline, None);
    assert!(matches!(
        cp.on_client_readable(7, ClientRead::Eof, ms(0), 100),
        ClientStep::Closed
    ));
    assert!(cp.clients.is_empty());
    let mut cp = one_client(7);
    assert!(matches!(
        cp.on_client_readable(7, ClientRead::Failed, ms(0), 100),
        ClientStep::Closed
    ));
    let mut cp = one_client(7);
    assert!(matches!(
        cp.on_client_readable(7, ClientRead::Bytes(vec![]), ms(0), 100),
        ClientStep::Closed
    ));
    assert!(cp.clients.is_empty());
}

#[test]
fn slow_requests_expire() {
    let mut cp = ControlPlane::new();
    for fd in [5, 6, 7] {
        cp.accept_client(fd, Some(ROOT), 5);
    }
    cp.on_client_readable(5, ClientRead::Bytes(b"SYSX".to_vec()), ms(0), 100);
    cp.on_client_readable(6, ClientRead::Bytes(b"SYSX".to_vec()), ms(50), 100);
    assert!(cp.poll_assembly_timeouts(ms(100)).is_empty());
    assert_eq!(cp.poll_assembly_timeouts(ms(101)), vec![5]);
    assert_eq!(cp.clients.len(), 2);
    assert_eq!(cp.before_read(6, ms(150)), ReadGate::Read);
    assert_eq!(cp.before_read(6, ms(151)), ReadGate::Overdue);
    assert_eq!(cp.before_read(6, ms(151)), ReadGate::Unknown);
    assert_eq!(cp.before_read(7, ms(9999)), ReadGate::Read);
}

#[test]
fn several_requests_expire_at_once() {
    let mut cp = ControlPlane::new();
    for fd in 0..MAX_CONCURRENT_FDS as i32 {
        cp.accept_client(fd, Some(ROOT), 5);
        if fd % 2 == 0 {
            cp.on_client_readable(fd, ClientRead::Bytes(b"S".to_vec()), ms(0), 100);
        }
    }
    assert!(!cp.listening);
    let mut expired = cp.poll_assembly_timeouts(ms(500));
    expired.sort();
    let expected: Vec<i32> = (0..MAX_CONCURRENT_FDS as i32).filter(|fd| fd % 2 == 0).collect();
    assert_eq!(expired, expected);
    assert!(cp.listening);
    assert_eq!(cp.clients.len(), 32);
}
