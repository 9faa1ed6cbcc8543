//! Laws of the session manager, proved over the abstract models that the
//! executable operations refine.
//!
//! Each law is stated against `deliver_model`, `reap_model` or
//! `post_model`; the corresponding executable functions' contracts say
//! that they compute exactly these models, so every law carries over to
//! the running code.

use vstd::prelude::*;

use crate::handler::{post_model, rpc_has_id, rpc_well_formed, PostOutcome};
use crate::frames::{
    lemma_index_of_from_first, lemma_index_of_from_none, message_frame_text, session_id_of_path,
    sid_param_prefix, starts_with,
};
use crate::registry::{
    deliver_model, lemma_sid_chars, reap_model, sid_seq, stale, EnqueueResult, SessionModel,
};
use crate::QUEUE_CAPACITY;

verus! {

/// Round trip of the advertised endpoint: posting to the path that the
/// `endpoint` frame announces addresses exactly the session that was
/// issued, since the path parser recovers the embedded id unchanged.
pub proof fn lemma_endpoint_round_trip(nanos: nat, pid: nat, counter: nat)
    ensures
        ({
            let sid = sid_seq(nanos, pid, counter);
            session_id_of_path("/message?sessionId="@ + sid) == Some(sid)
        }),
{
    reveal_strlit("/message?sessionId=");
    reveal_strlit("sessionId=");
    let lit = "/message?sessionId="@;
    let sid = sid_seq(nanos, pid, counter);
    let path = lit + sid;
    lemma_sid_chars(nanos, pid, counter);
    assert(lit.len() == 19);
    assert(lit[8] == '?');
    assert forall|j: int| 0 <= j < 8 implies #[trigger] path[j] != '?' by {
        assert(path[j] == lit[j]);
    }
    assert(path[8] == '?');
    lemma_index_of_from_first(path, '?', 0, 8);
    assert forall|j: int| 9 <= j < path.len() implies #[trigger] path[j] != '?' by {
        if j < 19 {
            assert(path[j] == lit[j]);
        } else {
            assert(path[j] == sid[j - 19]);
        }
    }
    lemma_index_of_from_none(path, '?', 9);
    let query = path.subrange(9, path.len() as int);
    assert(query =~= "sessionId="@ + sid);
    assert forall|j: int| 0 <= j < query.len() implies #[trigger] query[j] != '&' by {
        if j < 10 {
            assert(query[j] == "sessionId="@[j]);
        } else {
            assert(query[j] == sid[j - 10]);
        }
    }
    lemma_index_of_from_none(query, '&', 0);
    let param = query.subrange(0, query.len() as int);
    assert(param =~= query);
    assert(param.subrange(0, 10) =~= sid_param_prefix());
    assert(starts_with(param, sid_param_prefix()));
    assert(param.skip(10) =~= sid);
}

/// Frames enqueued onto one session are kept in enqueue order: after two
/// successful deliveries the session's queue holds the two frames in that
/// order behind what was already queued. Together with `pop_frame`, which
/// always yields the head of the queue, frames reach the socket in the
/// relative order they were enqueued.
pub proof fn lemma_fifo_order(
    m: Map<Seq<char>, SessionModel>,
    sid: Seq<char>,
    f1: Seq<char>,
    f2: Seq<char>,
    t1: u64,
    t2: u64,
)
    requires
        deliver_model(m, sid, f1, t1).1 == EnqueueResult::Delivered,
        deliver_model(deliver_model(m, sid, f1, t1).0, sid, f2, t2).1
            == EnqueueResult::Delivered,
    ensures
        ({
            let m2 = deliver_model(deliver_model(m, sid, f1, t1).0, sid, f2, t2).0;
            m2[sid].frames == m[sid].frames + seq![f1, f2]
        }),
{
    let m1 = deliver_model(m, sid, f1, t1).0;
    let m2 = deliver_model(m1, sid, f2, t2).0;
    assert(m1[sid].frames == m[sid].frames.push(f1));
    assert(m2[sid].frames == m[sid].frames.push(f1).push(f2));
    assert(m[sid].frames.push(f1).push(f2) =~= m[sid].frames + seq![f1, f2]);
}

/// A session whose idle time exceeds the eviction threshold is gone after
/// one reaper scan; its stream handler then observes the closed queue
/// (`pop_frame` returns the terminal signal for an absent session) and
/// tears the transport down.
pub proof fn lemma_reaper_evicts(m: Map<Seq<char>, SessionModel>, sid: Seq<char>, now: u64)
    requires
        m.contains_key(sid),
        stale(m[sid], now),
    ensures
        !reap_model(m, now).contains_key(sid),
        forall|k: Seq<char>|
            #[trigger] reap_model(m, now).contains_key(k) ==> m.contains_key(k) && !stale(
                m[k],
                now,
            ),
{
}

/// Delivering onto a session whose queue is at capacity never blocks and
/// never removes the session: the one frame is dropped, the session and
/// its queued frames stay, and only the activity timestamp moves.
pub proof fn lemma_full_queue_drops(
    m: Map<Seq<char>, SessionModel>,
    sid: Seq<char>,
    f: Seq<char>,
    now: u64,
)
    requires
        m.contains_key(sid),
        m[sid].open,
        m[sid].frames.len() >= QUEUE_CAPACITY,
    ensures
        ({
            let (m2, r) = deliver_model(m, sid, f, now);
            &&& r == EnqueueResult::Dropped
            &&& m2.contains_key(sid)
            &&& m2[sid].frames == m[sid].frames
            &&& m2[sid].open
            &&& m2.dom() == m.dom()
        }),
{
    let (m2, r) = deliver_model(m, sid, f, now);
    assert(m2.dom() =~= m.dom());
}

/// Delivering onto a session whose consumer has terminated removes the
/// stale entry and reports the session gone; a second attempt against the
/// same id then reports it not found.
pub proof fn lemma_gone_then_not_found(
    m: Map<Seq<char>, SessionModel>,
    sid: Seq<char>,
    f1: Seq<char>,
    f2: Seq<char>,
    t1: u64,
    t2: u64,
)
    requires
        m.contains_key(sid),
        !m[sid].open,
    ensures
        ({
            let (m2, r1) = deliver_model(m, sid, f1, t1);
            let (m3, r2) = deliver_model(m2, sid, f2, t2);
            &&& r1 == EnqueueResult::Gone
            &&& !m2.contains_key(sid)
            &&& r2 == EnqueueResult::NotFound
            &&& m3 == m2
        }),
{
}

/// A malformed request body never mutates the registry and always yields
/// the client-error reply, whatever session id was supplied and whatever
/// the router would have answered.
pub proof fn lemma_malformed_untouched(
    m: Map<Seq<char>, SessionModel>,
    sid: Seq<char>,
    body: Seq<char>,
    response: Option<Seq<char>>,
    now: u64,
)
    requires
        !rpc_well_formed(body),
    ensures
        post_model(m, sid, body, response, now).0 == m,
        post_model(m, sid, body, response, now).1 == PostOutcome::BadRequest,
{
}

/// Round trip: a well-formed request with a correlation id whose router
/// answer is a response puts exactly one `message` frame, carrying that
/// serialized response, on the addressed session's queue, and the post is
/// acknowledged as accepted.
pub proof fn lemma_round_trip(
    m: Map<Seq<char>, SessionModel>,
    sid: Seq<char>,
    body: Seq<char>,
    json: Seq<char>,
    now: u64,
)
    requires
        rpc_well_formed(body),
        rpc_has_id(body),
        m.contains_key(sid),
        m[sid].open,
        m[sid].frames.len() < QUEUE_CAPACITY,
    ensures
        ({
            let (m2, o) = post_model(m, sid, body, Some(json), now);
            &&& o == PostOutcome::Accepted
            &&& m2[sid].frames == m[sid].frames.push(message_frame_text(json))
            &&& forall|k: Seq<char>|
                k != sid ==> (#[trigger] m2.contains_key(k) <==> m.contains_key(k)) && (
                m2.contains_key(k) ==> m2[k] == m[k])
        }),
{
}

} // verus!
