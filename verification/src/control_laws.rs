//! What the control connections promise, said over bytes, clocks and pairs of calls.
use vstd::prelude::*;

use crate::control_plane::{
    Admission, ClientRead, ClientStep, ControlPlane, PendingConn, ReadGate,
};
use crate::ipc::{decode_frame, FrameError, Header, PeerCredentials};
use crate::recovery::Moment;

verus! {

/// Whether the two pools agree on every connection but `fd`.
pub open spec fn same_but_for(a: &ControlPlane, b: &ControlPlane, fd: i32) -> bool {
    forall|x: i32|
        x != fd ==> (#[trigger] a.conns().contains_key(x) == b.conns().contains_key(x) && (
        a.conns().contains_key(x) ==> a.conns()[x] == b.conns()[x]))
}

/// Whether `fd` is in the pool, with these bytes and this deadline.
pub open spec fn holds(
    c: &ControlPlane,
    fd: i32,
    bytes: Seq<u8>,
    deadline: Option<Moment>,
) -> bool {
    c.clients@.contains_key(fd) && c.clients@[fd].buf@ == bytes && c.clients@[fd].asm_deadline
        == deadline
}

/// Law: the pool begins empty, and waits for peers.
pub proof fn lemma_pool_begins_empty(r: ControlPlane, fd: i32)
    requires
        call_ensures(ControlPlane::new, (), r),
    ensures
        !r.clients@.contains_key(fd),
        r.listening,
{
    if r.clients@.contains_key(fd) {
        assert(r.conns().contains_key(fd));
    }
    assert(r.clients@.dom() =~= Set::<i32>::empty()) by {
        assert forall|x: i32| !r.clients@.dom().contains(x) by {
            if r.clients@.contains_key(x) {
                assert(r.conns().contains_key(x));
            }
        }
    }
}

/// Law: a peer is let in exactly if the kernel vouches for it and it is root or of the
/// administrators' group. It then waits with no byte and no deadline, and no other connection
/// changes. New peers are waited for exactly while fewer than sixty-four are there.
pub proof fn lemma_admission(
    c: &mut ControlPlane,
    fd: i32,
    creds: Option<PeerCredentials>,
    admin_gid: u32,
    r: Admission,
)
    requires
        call_ensures(ControlPlane::accept_client, (c, fd, creds, admin_gid), r),
    ensures
        creds is None ==> r is Unauthorized,
        creds matches Some(p) ==> (r is Admitted <==> p.uid == 0 || p.gid == admin_gid),
        r is Admitted ==> holds(final(c), fd, Seq::<u8>::empty(), None),
        r is Unauthorized ==> *final(c) == *old(c),
        same_but_for(old(c), final(c), fd),
        final(c).listening <==> final(c).clients@.dom().len() < 64,
{
    if r is Admitted {
        assert(final(c).conns().contains_key(fd));
        assert(final(c).conns()[fd] == (Seq::<u8>::empty(), None::<Moment>));
    }
}

/// Law: peers are waited for exactly while fewer than sixty-four are there.
pub proof fn lemma_room(c: &ControlPlane, r: bool)
    requires
        call_ensures(ControlPlane::accept_wanted, (c,), r),
    ensures
        r <==> c.clients@.dom().len() < 64,
{
}

/// Law: a connection that is removed is gone, is handed back as it was, and makes room; no
/// other connection changes.
pub proof fn lemma_removal(c: &mut ControlPlane, fd: i32, r: Option<PendingConn>)
    requires
        call_ensures(ControlPlane::remove_client, (c, fd), r),
    ensures
        !final(c).clients@.contains_key(fd),
        same_but_for(old(c), final(c), fd),
        r is Some <==> old(c).clients@.contains_key(fd),
        r matches Some(p) ==> holds(old(c), fd, p.buf@, p.asm_deadline),
        r is Some ==> final(c).listening,
{
    if final(c).clients@.contains_key(fd) {
        assert(final(c).conns().contains_key(fd));
    }
    if old(c).clients@.contains_key(fd) {
        assert(old(c).conns().contains_key(fd));
    }
    if r is Some {
        assert(old(c).conns()[fd] == old(c).clients@[fd]@);
        assert(r->0@ == old(c).clients@[fd]@);
    }
}

// ---------------------------------------------------------------------------
// Requests
// ---------------------------------------------------------------------------

/// Law: what follows a read is what decoding all the bytes says that have arrived so far. A
/// request that decodes is handed on, one that is too long for a frame or can be none is
/// malformed, and one that lacks bytes waits; an end, or a failure, closes.
pub proof fn lemma_read_is_decoded<'a>(
    c: &mut ControlPlane,
    fd: i32,
    b: Vec<u8>,
    now: Moment,
    budget_ms: u16,
    step: ClientStep,
    all: &'a [u8],
    decoded: Result<(Header, &'a [u8]), FrameError>,
)
    requires
        b@.len() > 0,
        old(c).clients@.contains_key(fd),
        call_ensures(
            ControlPlane::on_client_readable,
            (c, fd, ClientRead::Bytes(b), now, budget_ms),
            step,
        ),
        all@ == old(c).clients@[fd].buf@ + b@,
        call_ensures(decode_frame, (all,), decoded),
    ensures
        all@.len() > 4112 ==> step is Malformed,
        all@.len() <= 4112 ==> (match decoded {
            Ok(f) => step matches ClientStep::Request { header, payload } && payload@ == f.1@
                && header.command == f.0.command && header.payload_length == f.0.payload_length,
            Err(FrameError::TruncatedHeader) => step is Wait,
            Err(_) => step is Malformed,
        }),
        step !is Closed,
        step is Wait <==> final(c).clients@.contains_key(fd),
        step is Wait ==> final(c).clients@[fd].buf@ == all@,
        same_but_for(old(c), final(c), fd),
{
    assert(old(c).conns().contains_key(fd));
    assert(old(c).conns()[fd] == old(c).clients@[fd]@);
    if final(c).clients@.contains_key(fd) {
        assert(final(c).conns().contains_key(fd));
    }
    if step is Wait {
        assert(final(c).conns().contains_key(fd));
        assert(final(c).conns()[fd] == final(c).clients@[fd]@);
    }
    if decoded is Ok {
        let f = decoded->Ok_0;
        if step is Request {
            crate::ipc::lemma_codes_distinct(step->header.command, f.0.command);
        }
    }
}

/// Law: a read that gave nothing yet changes nothing; an end, a failure or an empty read takes
/// the connection out, and nothing else.
pub proof fn lemma_read_without_bytes(
    c: &mut ControlPlane,
    fd: i32,
    read: ClientRead,
    now: Moment,
    budget_ms: u16,
    step: ClientStep,
)
    requires
        read matches ClientRead::Bytes(b) ==> b@.len() == 0,
        old(c).clients@.contains_key(fd),
        call_ensures(ControlPlane::on_client_readable, (c, fd, read, now, budget_ms), step),
    ensures
        read is WouldBlock ==> step is Wait && final(c).conns() == old(c).conns(),
        read !is WouldBlock ==> step is Closed && !final(c).clients@.contains_key(fd),
        same_but_for(old(c), final(c), fd),
{
    assert(old(c).conns().contains_key(fd));
    if final(c).clients@.contains_key(fd) {
        assert(final(c).conns().contains_key(fd));
    }
}

/// Law: it makes no difference how a request is cut up. Two pieces, of which the first waits,
/// come to what the two in one piece come to, and the time they have is that of the first.
pub proof fn lemma_pieces(
    c: &mut ControlPlane,
    d: &mut ControlPlane,
    e: &mut ControlPlane,
    fd: i32,
    a: Vec<u8>,
    b: Vec<u8>,
    whole: Vec<u8>,
    t: Moment,
    u: Moment,
    budget_ms: u16,
    first: ClientStep,
    second: ClientStep,
    at_once: ClientStep,
)
    requires
        old(c).clients@.contains_key(fd),
        a@.len() > 0,
        b@.len() > 0,
        whole@ == a@ + b@,
        *old(e) == *old(c),
        *final(c) == *old(d),
        call_ensures(
            ControlPlane::on_client_readable,
            (c, fd, ClientRead::Bytes(a), t, budget_ms),
            first,
        ),
        first is Wait,
        call_ensures(
            ControlPlane::on_client_readable,
            (d, fd, ClientRead::Bytes(b), u, budget_ms),
            second,
        ),
        call_ensures(
            ControlPlane::on_client_readable,
            (e, fd, ClientRead::Bytes(whole), t, budget_ms),
            at_once,
        ),
    ensures
        (second is Wait) == (at_once is Wait),
        (second is Malformed) == (at_once is Malformed),
        (second is Request) == (at_once is Request),
        second is Request ==> at_once is Request && second->payload@ == at_once->payload@
            && second->header.command == at_once->header.command,
        final(d).conns() == final(e).conns(),
{
    let before = old(c).conns()[fd];
    assert(old(c).conns().contains_key(fd));
    assert(final(c).conns().contains_key(fd));
    let mid = final(c).conns()[fd];
    assert(mid.0 == before.0 + a@);
    assert(mid.0 + b@ =~= before.0 + whole@);
    if second is Request && at_once is Request {
        crate::ipc::lemma_codes_distinct(second->header.command, at_once->header.command);
    }
    assert(final(d).conns() =~= final(e).conns());
}

// ---------------------------------------------------------------------------
// Time
// ---------------------------------------------------------------------------

/// Law: the first bytes of a request set its deadline, as many milliseconds ahead as the budget
/// has; later bytes leave it as it is.
pub proof fn lemma_deadline(
    c: &mut ControlPlane,
    fd: i32,
    b: Vec<u8>,
    now: Moment,
    budget_ms: u16,
    step: ClientStep,
)
    requires
        old(c).clients@.contains_key(fd),
        call_ensures(
            ControlPlane::on_client_readable,
            (c, fd, ClientRead::Bytes(b), now, budget_ms),
            step,
        ),
        step is Wait,
    ensures
        old(c).clients@[fd].buf@.len() == 0 && now.nanos + budget_ms * 1_000_000 <= u64::MAX ==> (
        final(c).clients@[fd].asm_deadline matches Some(d) && d.nanos == now.nanos + budget_ms
            * 1_000_000),
        old(c).clients@[fd].buf@.len() == 0 && now.nanos + budget_ms * 1_000_000 > u64::MAX ==> (
        final(c).clients@[fd].asm_deadline matches Some(d) && d.nanos == u64::MAX),
        old(c).clients@[fd].buf@.len() > 0 ==> final(c).clients@[fd].asm_deadline
            == old(c).clients@[fd].asm_deadline,
{
    assert(old(c).conns().contains_key(fd));
    assert(old(c).conns()[fd] == old(c).clients@[fd]@);
    assert(final(c).conns().contains_key(fd));
    assert(final(c).conns()[fd] == final(c).clients@[fd]@);
}

/// Law: a connection is cut off before a read exactly if its deadline has passed and its
/// request still lacks bytes; one that is not in the pool is unknown. What is read is left as
/// it is.
pub proof fn lemma_read_refused<'a>(
    c: &mut ControlPlane,
    fd: i32,
    now: Moment,
    r: ReadGate,
    buf: &'a [u8],
    decoded: Result<(Header, &'a [u8]), FrameError>,
)
    requires
        call_ensures(ControlPlane::before_read, (c, fd, now), r),
        old(c).clients@.contains_key(fd) ==> buf@ == old(c).clients@[fd].buf@,
        call_ensures(decode_frame, (buf,), decoded),
    ensures
        r is Unknown <==> !old(c).clients@.contains_key(fd),
        r is Overdue <==> {
            &&& old(c).clients@.contains_key(fd)
            &&& old(c).clients@[fd].asm_deadline matches Some(d) && now.nanos > d.nanos
            &&& decoded == Err::<(Header, &'a [u8]), FrameError>(FrameError::TruncatedHeader)
        },
        r is Overdue ==> !final(c).clients@.contains_key(fd),
        r !is Overdue ==> final(c).conns() == old(c).conns(),
        same_but_for(old(c), final(c), fd),
{
    if old(c).clients@.contains_key(fd) {
        assert(old(c).conns().contains_key(fd));
        assert(old(c).conns()[fd] == old(c).clients@[fd]@);
    }
    if final(c).clients@.contains_key(fd) {
        assert(final(c).conns().contains_key(fd));
    }
}

/// Law: a sweep cuts off the connections that a read would be refused of at that moment, and only
/// those.
pub proof fn lemma_timeouts(
    c: &mut ControlPlane,
    d: &mut ControlPlane,
    fd: i32,
    now: Moment,
    before: ReadGate,
    expired: Vec<i32>,
)
    requires
        *old(d) == *old(c),
        call_ensures(ControlPlane::before_read, (d, fd, now), before),
        call_ensures(ControlPlane::poll_assembly_timeouts, (c, now), expired),
    ensures
        expired@.contains(fd) <==> before is Overdue,
        final(c).clients@.contains_key(fd) <==> before is Read,
        before is Read ==> final(c).conns()[fd] == old(c).conns()[fd],
        expired@.no_duplicates(),
{
    assert(final(c).clients@.contains_key(fd) == final(c).conns().contains_key(fd));
    assert(expired@.to_set().contains(fd) == expired@.contains(fd));
}

} // verus!
