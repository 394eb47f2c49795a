//! The control connections: who is let in, and how requests are put together.
use std::collections::HashMap;
use vstd::prelude::*;
use vstd::slice::slice_to_vec;

use crate::ipc::{
    decode_frame, peer_allowed_control, validate_peer_credentials, FrameError, Header,
    PeerCredentials, MAX_CONCURRENT_FDS, MAX_PAYLOAD_BYTES,
};
use crate::recovery::Moment;

verus! {

broadcast use vstd::std_specs::hash::group_hash_axioms;

/// Longest request on the wire.
pub const MAX_FRAME_BYTES: usize = 16 + MAX_PAYLOAD_BYTES;

/// Nanoseconds in a millisecond.
pub const NANOS_PER_MS: u64 = 1_000_000;

/// A connection whose request is not complete.
#[derive(Debug)]
pub struct PendingConn {
    /// What has arrived.
    pub buf: Vec<u8>,
    /// When the rest must have arrived. It is set by the first byte.
    pub asm_deadline: Option<Moment>,
}

/// The bytes and the deadline of a connection.
pub type ConnView = (Seq<u8>, Option<Moment>);

impl View for PendingConn {
    type V = ConnView;

    open spec fn view(&self) -> ConnView {
        (self.buf@, self.asm_deadline)
    }
}

/// Whether a connection has run out of time with an incomplete request.
pub open spec fn is_overdue(conn: ConnView, now: Moment) -> bool {
    conn.1 matches Some(deadline) && now.nanos > deadline.nanos && crate::ipc::frame_fault(conn.0)
        == Some(FrameError::TruncatedHeader)
}

/// Whether `expired` holds exactly the connections that have run out of time.
pub open spec fn are_the_overdue(
    conns: Map<i32, ConnView>,
    now: Moment,
    expired: Seq<i32>,
) -> bool {
    forall|fd: i32| #[trigger]
        expired.contains(fd) <==> conns.contains_key(fd) && is_overdue(conns[fd], now)
}

/// When a request that begins at `now` must be complete.
pub open spec fn assembly_deadline(now: Moment, budget_ms: u16) -> Moment {
    let end = now.nanos + budget_ms * NANOS_PER_MS;
    Moment {
        nanos: if end <= u64::MAX {
            end as u64
        } else {
            u64::MAX
        },
    }
}

/// All control connections.
#[derive(Debug)]
pub struct ControlPlane {
    pub clients: HashMap<i32, PendingConn>,
    /// Whether new connections are waited for.
    pub listening: bool,
}

/// Whether a new peer was let in.
#[derive(Debug, Clone, Copy, PartialEq, Eq, Structural)]
pub enum Admission {
    Admitted,
    /// The peer is told that it is not authorized, and is cut off.
    Unauthorized,
}

/// Whether a connection is to be read.
#[derive(Debug, Clone, Copy, PartialEq, Eq, Structural)]
pub enum ReadGate {
    /// There is no such connection.
    Unknown,
    /// The request did not arrive in time: the peer is told so, and is cut off.
    Overdue,
    Read,
}

/// What a read gave.
#[derive(Debug)]
pub enum ClientRead {
    /// At least one byte.
    Bytes(Vec<u8>),
    Eof,
    WouldBlock,
    Failed,
}

/// What follows a read.
#[derive(Debug)]
pub enum ClientStep {
    /// More is to come.
    Wait,
    /// The connection is gone.
    Closed,
    /// The peer sent no valid frame: it is told so, and is cut off.
    Malformed,
    /// The request is complete, and the connection is out of the pool.
    Request { header: Header, payload: Vec<u8> },
}

impl ControlPlane {
    /// The connections, as bytes and deadlines.
    pub open spec fn conns(&self) -> Map<i32, ConnView> {
        Map::new(|fd: i32| self.clients@.contains_key(fd), |fd: i32| self.clients@[fd]@)
    }

    /// At most so many connections are open as are allowed, and new ones are waited for
    /// exactly while there is room.
    pub open spec fn wf(&self) -> bool {
        &&& self.clients@.dom().finite()
        &&& self.clients@.dom().len() <= MAX_CONCURRENT_FDS
        &&& self.listening == (self.clients@.dom().len() < MAX_CONCURRENT_FDS)
    }

    /// No connection yet.
    pub fn new() -> (r: ControlPlane)
        ensures
            r.wf(),
            r.conns() == Map::<i32, ConnView>::empty(),
    {
        let r = ControlPlane { clients: HashMap::new(), listening: true };
        assert(r.conns() =~= Map::<i32, ConnView>::empty());
        r
    }

    /// Whether there is room for another connection.
    pub fn accept_wanted(&self) -> (r: bool)
        requires
            self.wf(),
        ensures
            r == (self.clients@.dom().len() < MAX_CONCURRENT_FDS),
            r == self.listening,
    {
        self.clients.len() < MAX_CONCURRENT_FDS
    }

    /// Lets a new peer in, if the kernel vouches for it and it may command. With the last
    /// place taken no more connections are waited for.
    pub fn accept_client(
        &mut self,
        fd: i32,
        creds: Option<PeerCredentials>,
        admin_gid: u32,
    ) -> (r: Admission)
        requires
            old(self).wf(),
            old(self).listening,
        ensures
            final(self).wf(),
            (creds matches Some(c) && (c.uid == 0 || c.gid == admin_gid)) <==> r is Admitted,
            r is Admitted ==> final(self).conns() == old(self).conns().insert(
                fd,
                (Seq::<u8>::empty(), None),
            ),
            r is Unauthorized ==> *final(self) == *old(self),
    {
        let allowed = match validate_peer_credentials(creds) {
            Ok(c) => peer_allowed_control(&c, admin_gid),
            Err(_) => false,
        };
        if !allowed {
            return Admission::Unauthorized;
        }
        let ghost before = self.clients@;
        let conn = PendingConn { buf: Vec::new(), asm_deadline: None };
        assert(conn@ == (Seq::<u8>::empty(), None::<Moment>));
        self.clients.insert(fd, conn);
        if self.clients.len() >= MAX_CONCURRENT_FDS {
            self.listening = false;
        }
        proof {
            assert(self.clients@.dom() =~= before.dom().insert(fd));
            assert(self.conns() =~= old(self).conns().insert(fd, (Seq::<u8>::empty(), None)));
        }
        Admission::Admitted
    }

    /// Takes a connection out of the pool. With a place free new connections are waited for
    /// again.
    pub fn remove_client(&mut self, fd: i32) -> (r: Option<PendingConn>)
        requires
            old(self).wf(),
        ensures
            final(self).wf(),
            final(self).conns() == old(self).conns().remove(fd),
            match r {
                Some(c) => old(self).conns().contains_key(fd) && c@ == old(self).conns()[fd],
                None => !old(self).conns().contains_key(fd),
            },
            r is Some ==> final(self).listening,
    {
        let ghost before = self.clients@;
        let r = self.clients.remove(&fd);
        proof {
            assert(self.clients@ =~= before.remove(fd));
            assert(self.clients@.dom() =~= before.dom().remove(fd));
            assert(self.conns() =~= old(self).conns().remove(fd));
        }
        if self.clients.len() < MAX_CONCURRENT_FDS {
            self.listening = true;
        }
        r
    }

    fn overdue(&self, fd: i32, now: Moment) -> (r: bool)
        ensures
            r == (self.conns().contains_key(fd) && is_overdue(self.conns()[fd], now)),
    {
        match self.clients.get(&fd) {
            None => false,
            Some(conn) => match conn.asm_deadline {
                None => false,
                Some(deadline) => {
                    if now.nanos <= deadline.nanos {
                        return false;
                    }
                    match decode_frame(conn.buf.as_slice()) {
                        Err(FrameError::TruncatedHeader) => true,
                        _ => false,
                    }
                },
            },
        }
    }

    /// All connections in the pool.
    fn fds(&self) -> (fds: Vec<i32>)
        ensures
            fds@.no_duplicates(),
            fds@.to_set() == self.clients@.dom(),
    {
        let mut fds: Vec<i32> = Vec::new();
        for fd in it: self.clients.keys()
            invariant
                it.seq().no_duplicates(),
                it.seq().unref().to_set() == self.clients@.dom(),
                fds@.len() == it.index(),
                forall|i: int| 0 <= i < fds@.len() ==> fds@[i] == *#[trigger] it.seq()[i],
                fds@.len() == it.seq().len() ==> fds@ == it.seq().unref(),
                fds@.no_duplicates(),
        {
            proof {
                let n = it.index();
                assert(it.seq()[n] == fd);
                assert forall|i: int| 0 <= i < fds@.len() implies fds@[i] != *fd by {
                    assert(it.seq()[i] != it.seq()[n]);
                }
            }
            fds.push(*fd);
        }
        fds
    }

    /// Takes the connections out of the pool whose requests did not arrive in time. Their
    /// peers are told so, and are cut off.
    pub fn poll_assembly_timeouts(&mut self, now: Moment) -> (expired: Vec<i32>)
        requires
            old(self).wf(),
        ensures
            final(self).wf(),
            expired@.no_duplicates(),
            are_the_overdue(old(self).conns(), now, expired@),
            final(self).conns() == old(self).conns().remove_keys(expired@.to_set()),
    {
        let fds = self.fds();
        let mut expired: Vec<i32> = Vec::new();
        let mut k: usize = 0;
        while k < fds.len()
            invariant
                k <= fds.len(),
                fds@.no_duplicates(),
                fds@.to_set() == self.clients@.dom(),
                *self == *old(self),
                expired@.no_duplicates(),
                forall|x: i32| #[trigger]
                    expired@.contains(x) <==> fds@.take(k as int).contains(x) && is_overdue(
                        self.conns()[x],
                        now,
                    ),
            decreases fds.len() - k,
        {
            let fd: i32 = fds[k];
            let ghost before = expired@;
            let ghost seen = fds@.take(k as int);
            proof {
                assert(fds@.to_set().contains(fds@[k as int]));
                assert(fds@.take(k + 1) =~= seen.push(fd));
                assert(!seen.contains(fd)) by {
                    if seen.contains(fd) {
                        let i = seen.index_of(fd);
                        assert(fds@[i] == fds@[k as int]);
                    }
                }
                lemma_push_contains(seen, fd);
                lemma_push_contains(before, fd);
            }
            if self.overdue(fd, now) {
                expired.push(fd);
                assert(!before.contains(fd));
            }
            k += 1;
        }
        proof {
            assert(fds@.take(fds@.len() as int) =~= fds@);
            assert forall|x: i32| #[trigger] expired@.contains(x) <==> self.conns().contains_key(x)
                && is_overdue(self.conns()[x], now) by {
                assert(fds@.to_set().contains(x) == self.clients@.dom().contains(x));
            }
        }
        let ghost start = self.conns();
        let mut i: usize = 0;
        assert(start.remove_keys(expired@.take(0).to_set()) =~= start);
        while i < expired.len()
            invariant
                i <= expired.len(),
                self.wf(),
                self.conns() == start.remove_keys(expired@.take(i as int).to_set()),
            decreases expired.len() - i,
        {
            self.remove_client(expired[i]);
            proof {
                let t = expired@.take(i as int);
                let x = expired@[i as int];
                assert(expired@.take(i + 1) =~= t.push(x));
                lemma_push_contains(t, x);
                assert(t.push(x).to_set() =~= t.to_set().insert(x));
                assert(self.conns() =~= start.remove_keys(expired@.take(i + 1).to_set()));
            }
            i += 1;
        }
        assert(expired@.take(expired@.len() as int) =~= expired@);
        expired
    }
}

/// A connection after `bytes` have arrived.
pub open spec fn fed(conn: ConnView, bytes: Seq<u8>, now: Moment, budget_ms: u16) -> ConnView {
    (
        conn.0 + bytes,
        if conn.0.len() == 0 {
            Some(assembly_deadline(now, budget_ms))
        } else {
            conn.1
        },
    )
}

/// What the bytes of a connection amount to.
pub enum Assembly {
    Incomplete,
    Invalid,
    Complete,
}

/// What `buf` amounts to: too many bytes, or none that can start a frame, are invalid.
pub open spec fn assembly(buf: Seq<u8>) -> Assembly {
    if buf.len() > MAX_FRAME_BYTES {
        Assembly::Invalid
    } else {
        match crate::ipc::frame_fault(buf) {
            None => Assembly::Complete,
            Some(FrameError::TruncatedHeader) => Assembly::Incomplete,
            Some(_) => Assembly::Invalid,
        }
    }
}

/// Whether `step` is what follows a read of the connection `conn`.
pub open spec fn is_step(
    conn: ConnView,
    read: ClientRead,
    now: Moment,
    budget_ms: u16,
    step: ClientStep,
) -> bool {
    match read {
        ClientRead::WouldBlock => step is Wait,
        ClientRead::Failed | ClientRead::Eof => step is Closed,
        ClientRead::Bytes(b) => if b@.len() == 0 {
            step is Closed
        } else {
            let buf = conn.0 + b@;
            match assembly(buf) {
                Assembly::Incomplete => step is Wait,
                Assembly::Invalid => step is Malformed,
                Assembly::Complete => step matches ClientStep::Request { header, payload }
                    && crate::ipc::is_header_of(header, buf) && payload@
                    == crate::ipc::frame_payload(buf),
            }
        },
    }
}

impl ControlPlane {
    /// Decides whether a connection that has something to say is read.
    pub fn before_read(&mut self, fd: i32, now: Moment) -> (r: ReadGate)
        requires
            old(self).wf(),
        ensures
            final(self).wf(),
            r == if !old(self).conns().contains_key(fd) {
                ReadGate::Unknown
            } else if is_overdue(old(self).conns()[fd], now) {
                ReadGate::Overdue
            } else {
                ReadGate::Read
            },
            final(self).conns() == if r is Overdue {
                old(self).conns().remove(fd)
            } else {
                old(self).conns()
            },
    {
        if !self.clients.contains_key(&fd) {
            return ReadGate::Unknown;
        }
        if self.overdue(fd, now) {
            self.remove_client(fd);
            return ReadGate::Overdue;
        }
        ReadGate::Read
    }

    /// Takes in what was read, and tells what follows. A connection stays in the pool only
    /// while its request is incomplete.
    pub fn on_client_readable(
        &mut self,
        fd: i32,
        read: ClientRead,
        now: Moment,
        budget_ms: u16,
    ) -> (step: ClientStep)
        requires
            old(self).wf(),
            old(self).conns().contains_key(fd),
        ensures
            final(self).wf(),
            is_step(old(self).conns()[fd], read, now, budget_ms, step),
            final(self).conns() == if step is Wait {
                match read {
                    ClientRead::Bytes(b) => old(self).conns().insert(
                        fd,
                        fed(old(self).conns()[fd], b@, now, budget_ms),
                    ),
                    _ => old(self).conns(),
                }
            } else {
                old(self).conns().remove(fd)
            },
    {
        let bytes = match read {
            ClientRead::WouldBlock => {
                return ClientStep::Wait;
            },
            ClientRead::Failed => {
                self.remove_client(fd);
                return ClientStep::Closed;
            },
            ClientRead::Eof => {
                self.remove_client(fd);
                return ClientStep::Closed;
            },
            ClientRead::Bytes(b) => b,
        };
        let ghost conn0 = self.conns()[fd];
        let ghost arrived = bytes@;
        match self.remove_client(fd) {
            None => ClientStep::Closed,
            Some(conn) => {
                if bytes.len() == 0 {
                    return ClientStep::Closed;
                }
                let mut conn = conn;
                let mut bytes = bytes;
                if conn.buf.len() == 0 {
                    let budget: u64 = budget_ms as u64 * NANOS_PER_MS;
                    conn.asm_deadline = Some(Moment { nanos: now.nanos.saturating_add(budget) });
                }
                conn.buf.append(&mut bytes);
                assert(conn@ == fed(conn0, arrived, now, budget_ms));
                if conn.buf.len() > MAX_FRAME_BYTES {
                    return ClientStep::Malformed;
                }
                match decode_frame(conn.buf.as_slice()) {
                    Ok((header, payload)) => {
                        return ClientStep::Request { header, payload: slice_to_vec(payload) };
                    },
                    Err(FrameError::TruncatedHeader) => {},
                    Err(_) => {
                        return ClientStep::Malformed;
                    },
                }
                self.put_back(fd, conn);
                assert(self.conns() =~= old(self).conns().insert(
                    fd,
                    fed(conn0, arrived, now, budget_ms),
                ));
                ClientStep::Wait
            },
        }
    }

    /// Puts a connection back into the pool.
    fn put_back(&mut self, fd: i32, conn: PendingConn)
        requires
            old(self).wf(),
            old(self).listening,
            !old(self).conns().contains_key(fd),
        ensures
            final(self).wf(),
            final(self).conns() == old(self).conns().insert(fd, conn@),
    {
        let ghost before = self.clients@;
        let ghost added = conn@;
        self.clients.insert(fd, conn);
        if self.clients.len() >= MAX_CONCURRENT_FDS {
            self.listening = false;
        }
        proof {
            assert(self.clients@.dom() =~= before.dom().insert(fd));
            assert(self.conns() =~= old(self).conns().insert(fd, added));
        }
    }
}

// ---------------------------------------------------------------------------
// Laws
// ---------------------------------------------------------------------------

/// Law: a request may arrive in any pieces. As long as part of a valid frame is missing, the
/// connection waits; with the last byte the request is complete, and it is the frame.
pub proof fn lemma_pieces_make_the_frame(frame: Seq<u8>, k: int)
    requires
        crate::ipc::frame_fault(frame) is None,
        frame.len() == 16 + crate::ipc::declared_length(frame),
        0 <= k <= frame.len(),
    ensures
        k < frame.len() ==> assembly(frame.take(k)) is Incomplete,
        k == frame.len() ==> assembly(frame.take(k)) is Complete && frame.take(k) == frame,
{
    if k < frame.len() {
        crate::ipc::lemma_partial_frame_truncated(frame, k);
    } else {
        assert(frame.take(k) =~= frame);
    }
}

/// Law: the time for a request counts from its first byte. Later bytes do not extend it.
pub proof fn lemma_first_byte_sets_deadline(
    first: Seq<u8>,
    more: Seq<u8>,
    then: Moment,
    now: Moment,
    budget_ms: u16,
)
    requires
        first.len() > 0,
    ensures
        ({
            let begun = fed((Seq::<u8>::empty(), None), first, then, budget_ms);
            &&& begun.1 == Some(assembly_deadline(then, budget_ms))
            &&& fed(begun, more, now, budget_ms).1 == begun.1
            &&& fed(begun, more, now, budget_ms).0 == first + more
        }),
{
    let begun = fed((Seq::<u8>::empty(), None), first, then, budget_ms);
    assert(begun.0 =~= first);
}

/// Law: what waits is bounded. The bytes of an incomplete request are fewer than the longest
/// frame has.
pub proof fn lemma_waiting_is_bounded(buf: Seq<u8>)
    requires
        assembly(buf) is Incomplete,
    ensures
        buf.len() < MAX_FRAME_BYTES,
{
}

proof fn lemma_push_contains(s: Seq<i32>, x: i32)
    ensures
        forall|y: i32| #[trigger] s.push(x).contains(y) <==> s.contains(y) || y == x,
{
    assert forall|y: i32| #[trigger] s.push(x).contains(y) <==> s.contains(y) || y == x by {
        if s.contains(y) {
            assert(s.push(x)[s.index_of(y)] == y);
        }
        assert(s.push(x)[s.len() as int] == x);
    }
}

} // verus!
