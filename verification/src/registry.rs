//! The session registry: the single source of truth for which streaming
//! sessions are alive.
//!
//! Each session owns a bounded, ordered delivery queue of serialized event
//! frames, a last-activity timestamp and an `open` mark that records whether
//! the stream handler consuming the queue is still attached. The registry is
//! viewed as a map from session id to that abstract session state; every
//! operation's contract is stated against that map.
//!
//! Clock readings and entropy (a nanosecond reading and a process id) are
//! passed in as plain values by the caller; the registry itself performs no
//! input or output.

use vstd::prelude::*;

use crate::alist::{
    amap, distinct_keys, lemma_amap_contains, lemma_amap_index, lemma_amap_len, lemma_amap_push,
    lemma_amap_remove, lemma_amap_update, lemma_distinct_remove,
};
use crate::frames::{endpoint_frame, endpoint_frame_text};
use crate::text::{hex_of, lemma_hex_injective, lemma_hex_shape, u128_to_hex, u64_to_hex, str_eq};
use crate::QUEUE_CAPACITY;
use crate::SESSION_TIMEOUT_SECS;

verus! {

/// Abstract state of one session: its pending frames in delivery order,
/// the time of its last enqueued activity, and whether the consuming
/// stream handler is still attached.
pub struct SessionModel {
    pub frames: Seq<Seq<char>>,
    pub last_activity: u64,
    pub open: bool,
}

/// One live session.
pub struct Session {
    queue: Vec<String>,
    last_activity: u64,
    open: bool,
}

impl View for Session {
    type V = SessionModel;

    closed spec fn view(&self) -> SessionModel {
        SessionModel {
            frames: self.queue@.map_values(|f: String| f@),
            last_activity: self.last_activity,
            open: self.open,
        }
    }
}

/// The characters of a session id built from a clock reading, a process id
/// and a connection counter.
pub open spec fn sid_seq(nanos: nat, pid: nat, counter: nat) -> Seq<char> {
    hex_of(nanos) + seq!['-'] + hex_of(pid) + seq!['-'] + hex_of(counter)
}

/// In `a + "-" + b == c + "-" + d` with dash-free `b` and `d`, the parts
/// after the last dash agree.
proof fn lemma_dash_suffix(a: Seq<char>, b: Seq<char>, c: Seq<char>, d: Seq<char>)
    requires
        a + seq!['-'] + b == c + seq!['-'] + d,
        forall|i: int| 0 <= i < b.len() ==> #[trigger] b[i] != '-',
        forall|i: int| 0 <= i < d.len() ==> #[trigger] d[i] != '-',
    ensures
        b == d,
{
    let l = a + seq!['-'] + b;
    let r = c + seq!['-'] + d;
    assert(seq!['-'].len() == 1);
    assert((a + seq!['-']).len() == a.len() + 1);
    assert((c + seq!['-']).len() == c.len() + 1);
    assert(l.len() == a.len() + 1 + b.len());
    assert(r.len() == c.len() + 1 + d.len());
    assert(l.len() == r.len());
    if b.len() == d.len() {
        assert(a.len() == c.len());
        assert forall|i: int| 0 <= i < b.len() implies b[i] == d[i] by {
            assert(l[a.len() + 1 + i] == b[i]);
            assert(r[c.len() + 1 + i] == d[i]);
        }
        assert(b =~= d);
    } else if b.len() < d.len() {
        assert(a.len() == c.len() + (d.len() - b.len()));
        assert(l[a.len() as int] == '-');
        assert(r[a.len() as int] == d[d.len() - b.len() - 1]);
        assert(false);
    } else {
        assert(c.len() == a.len() + (b.len() - d.len()));
        assert(r[c.len() as int] == '-');
        assert(l[c.len() as int] == b[b.len() - d.len() - 1]);
        assert(false);
    }
}

/// Session ids built from different counters differ, whatever the clock
/// readings and process ids were.
pub proof fn lemma_sid_counter_injective(
    n1: nat,
    p1: nat,
    c1: nat,
    n2: nat,
    p2: nat,
    c2: nat,
)
    requires
        sid_seq(n1, p1, c1) == sid_seq(n2, p2, c2),
    ensures
        c1 == c2,
{
    lemma_hex_shape(c1);
    lemma_hex_shape(c2);
    lemma_dash_suffix(
        hex_of(n1) + seq!['-'] + hex_of(p1),
        hex_of(c1),
        hex_of(n2) + seq!['-'] + hex_of(p2),
        hex_of(c2),
    );
    lemma_hex_injective(c1, c2);
}

/// No character of a session id is a question mark or an ampersand: a
/// session id passes unharmed through the query string it is advertised
/// in.
pub proof fn lemma_sid_chars(nanos: nat, pid: nat, counter: nat)
    ensures
        forall|i: int|
            0 <= i < sid_seq(nanos, pid, counter).len() ==> #[trigger] sid_seq(
                nanos,
                pid,
                counter,
            )[i] != '?' && sid_seq(nanos, pid, counter)[i] != '&',
{
    lemma_hex_shape(nanos);
    lemma_hex_shape(pid);
    lemma_hex_shape(counter);
    let s = sid_seq(nanos, pid, counter);
    let a = hex_of(nanos);
    let b = hex_of(pid);
    let c = hex_of(counter);
    assert forall|i: int| 0 <= i < s.len() implies #[trigger] s[i] != '?' && s[i] != '&' by {
        if i < a.len() {
            assert(s[i] == a[i]);
        } else if i == a.len() {
            assert(s[i] == '-');
        } else if i < a.len() + 1 + b.len() {
            assert(s[i] == b[i - a.len() - 1]);
        } else if i == a.len() + 1 + b.len() {
            assert(s[i] == '-');
        } else {
            assert(s[i] == c[i - a.len() - b.len() - 2]);
        }
    }
}

/// Render a session id from a clock reading, a process id and a counter.
pub fn make_session_id(nanos: u128, pid: u64, counter: u64) -> (r: String)
    ensures
        r@ == sid_seq(nanos as nat, pid as nat, counter as nat),
{
    proof {
        reveal_strlit("-");
    }
    let mut s = u128_to_hex(nanos);
    s.append("-");
    let p = u64_to_hex(pid);
    s.append(p.as_str());
    s.append("-");
    let c = u64_to_hex(counter);
    s.append(c.as_str());
    proof {
        assert(("-")@ =~= seq!['-']);
    }
    s
}

/// One registry entry. The ghost `made` field records the inputs the id
/// was rendered from; the registry's well-formedness ties every stored id
/// to a counter below the next one to be used, which makes fresh ids
/// provably distinct from all stored ones.
struct Entry {
    id: String,
    session: Session,
    made: Ghost<(nat, nat, nat)>,
}

/// The registry of live sessions, plus the counter feeding id generation.
pub struct Registry {
    entries: Vec<Entry>,
    next_counter: u64,
}

/// What deliver reports to the inbound handler.
#[derive(PartialEq, Eq, Structural, Clone, Copy, Debug)]
pub enum EnqueueResult {
    /// The frame was appended to the session's queue.
    Delivered,
    /// The queue was full; the frame was dropped, the session kept.
    Dropped,
    /// The consumer is gone; the stale entry was removed.
    Gone,
    /// No such session.
    NotFound,
}

/// What pop_frame reports to the stream handler.
pub enum PopResult {
    /// The frame that was at the head of the queue.
    Frame(String),
    /// The queue is empty; the session is still alive.
    Empty,
    /// The session is no longer registered: the terminal signal.
    Closed,
}

/// Whether a session counts as idle beyond the eviction threshold.
pub open spec fn stale(s: SessionModel, now: u64) -> bool {
    now > s.last_activity + SESSION_TIMEOUT_SECS
}

/// The registry after one reaper scan: every stale session evicted.
pub open spec fn reap_model(
    m: Map<Seq<char>, SessionModel>,
    now: u64,
) -> Map<Seq<char>, SessionModel> {
    Map::new(|k: Seq<char>| m.contains_key(k) && !stale(m[k], now), |k: Seq<char>| m[k])
}

/// The registry and result after one delivery attempt.
pub open spec fn deliver_model(
    m: Map<Seq<char>, SessionModel>,
    sid: Seq<char>,
    frame: Seq<char>,
    now: u64,
) -> (Map<Seq<char>, SessionModel>, EnqueueResult) {
    if !m.contains_key(sid) {
        (m, EnqueueResult::NotFound)
    } else if !m[sid].open {
        (m.remove(sid), EnqueueResult::Gone)
    } else if m[sid].frames.len() >= QUEUE_CAPACITY {
        (
            m.insert(
                sid,
                SessionModel { frames: m[sid].frames, last_activity: now, open: true },
            ),
            EnqueueResult::Dropped,
        )
    } else {
        (
            m.insert(
                sid,
                SessionModel {
                    frames: m[sid].frames.push(frame),
                    last_activity: now,
                    open: true,
                },
            ),
            EnqueueResult::Delivered,
        )
    }
}

impl Registry {
    /// The registry's entries as key-value pairs.
    pub closed spec fn pairs(&self) -> Seq<(Seq<char>, SessionModel)> {
        self.entries@.map_values(|e: Entry| (e.id@, e.session@))
    }

    /// Well-formedness: ids are pairwise distinct, and every id was built
    /// from a counter below the next one.
    pub closed spec fn wf(&self) -> bool {
        &&& distinct_keys(self.pairs())
        &&& forall|i: int|
            0 <= i < self.entries@.len() ==> {
                let e = #[trigger] self.entries@[i];
                e.id@ == sid_seq(e.made@.0, e.made@.1, e.made@.2) && e.made@.2
                    < self.next_counter
            }
    }

    /// Whether another session id can still be generated.
    pub closed spec fn counter_headroom(&self) -> bool {
        self.next_counter < u64::MAX
    }

    /// Whether another session id can still be generated: the connection
    /// counter has headroom.
    pub fn can_connect(&self) -> (r: bool)
        ensures
            r == self.counter_headroom(),
    {
        self.next_counter < u64::MAX
    }

    /// An empty registry.
    pub fn new() -> (r: Registry)
        ensures
            r.wf(),
            r@ == Map::<Seq<char>, SessionModel>::empty(),
            r.counter_headroom(),
    {
        let r = Registry { entries: Vec::new(), next_counter: 0 };
        proof {
            assert(r.pairs() =~= Seq::<(Seq<char>, SessionModel)>::empty());
        }
        r
    }

    /// Create and register a fresh session. Returns the session id and the
    /// `endpoint` frame announcing it. The id is distinct from every
    /// currently registered one.
    pub fn connect(&mut self, nanos: u128, pid: u64, now: u64) -> (r: (String, String))
        requires
            old(self).wf(),
            old(self).counter_headroom(),
        ensures
            final(self).wf(),
            !old(self)@.contains_key(r.0@),
            final(self)@ == old(self)@.insert(
                r.0@,
                SessionModel { frames: Seq::empty(), last_activity: now, open: true },
            ),
            r.1@ == endpoint_frame_text(r.0@),
            exists|c: nat| r.0@ == sid_seq(nanos as nat, pid as nat, c),
    {
        let ghost old_pairs = self.pairs();
        let c = self.next_counter;
        let id = make_session_id(nanos, pid, c);
        proof {
            assert forall|j: int| 0 <= j < self.entries@.len() implies self.entries@[j].id@
                != id@ by {
                let e = self.entries@[j];
                if e.id@ == id@ {
                    lemma_sid_counter_injective(
                        e.made@.0,
                        e.made@.1,
                        e.made@.2,
                        nanos as nat,
                        pid as nat,
                        c as nat,
                    );
                }
            }
            lemma_amap_contains(old_pairs, id@);
        }
        let frame = endpoint_frame(id.as_str());
        let session = Session { queue: Vec::new(), last_activity: now, open: true };
        proof {
            assert(session@.frames =~= Seq::<Seq<char>>::empty());
        }
        let entry = Entry {
            id: id.clone(),
            session,
            made: Ghost((nanos as nat, pid as nat, c as nat)),
        };
        self.entries.push(entry);
        self.next_counter = c + 1;
        proof {
            assert(self.pairs() =~= old_pairs.push(
                (id@, SessionModel { frames: Seq::empty(), last_activity: now, open: true }),
            ));
            lemma_amap_push(
                old_pairs,
                id@,
                SessionModel { frames: Seq::empty(), last_activity: now, open: true },
            );
            assert forall|p: int, q: int|
                0 <= p < q < self.pairs().len() implies self.pairs()[p].0
                != self.pairs()[q].0 by {
                if q < self.pairs().len() - 1 {
                    assert(old_pairs[p].0 != old_pairs[q].0);
                }
            }
        }
        (id, frame)
    }

    /// Number of live sessions.
    pub fn session_count(&self) -> (r: usize)
        requires
            self.wf(),
        ensures
            r == self@.len(),
    {
        proof {
            lemma_amap_len(self.pairs());
        }
        self.entries.len()
    }

    /// Index of the entry holding `sid`, if any.
    fn find_index(&self, sid: &str) -> (r: Option<usize>)
        ensures
            match r {
                Some(i) => i < self.entries@.len() && self.entries@[i as int].id@ == sid@,
                None => forall|j: int|
                    0 <= j < self.entries@.len() ==> #[trigger] self.entries@[j].id@ != sid@,
            },
    {
        let n = self.entries.len();
        let mut i: usize = 0;
        while i < n
            invariant
                0 <= i <= n,
                n == self.entries@.len(),
                forall|j: int| 0 <= j < i ==> #[trigger] self.entries@[j].id@ != sid@,
            decreases n - i,
        {
            if str_eq(self.entries[i].id.as_str(), sid) {
                return Some(i);
            }
            i = i + 1;
        }
        None
    }

    /// Re-usable facts after replacing the entry at `i` by one with the
    /// same id and ghost origin.
    proof fn lemma_update_wf(old_r: Registry, new_r: Registry, i: int)
        requires
            old_r.wf(),
            0 <= i < old_r.entries@.len(),
            new_r.entries@ =~= old_r.entries@.update(i, new_r.entries@[i]),
            new_r.entries@[i].id@ == old_r.entries@[i].id@,
            new_r.entries@[i].made@ == old_r.entries@[i].made@,
            new_r.next_counter == old_r.next_counter,
        ensures
            new_r.wf(),
            new_r.pairs() =~= old_r.pairs().update(
                i,
                (old_r.entries@[i].id@, new_r.entries@[i].session@),
            ),
    {
        assert forall|p: int, q: int|
            0 <= p < q < new_r.pairs().len() implies new_r.pairs()[p].0
            != new_r.pairs()[q].0 by {
            assert(old_r.pairs()[p].0 != old_r.pairs()[q].0);
        }
        assert forall|j: int| 0 <= j < new_r.entries@.len() implies {
            let e = #[trigger] new_r.entries@[j];
            e.id@ == sid_seq(e.made@.0, e.made@.1, e.made@.2) && e.made@.2 < new_r.next_counter
        } by {
            if j != i {
                assert(new_r.entries@[j] == old_r.entries@[j]);
            }
        }
    }

    /// Re-usable facts after removing the entry at `i`.
    proof fn lemma_remove_wf(old_r: Registry, new_r: Registry, i: int)
        requires
            old_r.wf(),
            0 <= i < old_r.entries@.len(),
            new_r.entries@ =~= old_r.entries@.remove(i),
            new_r.next_counter == old_r.next_counter,
        ensures
            new_r.wf(),
            new_r.pairs() =~= old_r.pairs().remove(i),
            new_r@ == old_r@.remove(old_r.entries@[i].id@),
    {
        assert(new_r.pairs() =~= old_r.pairs().remove(i));
        lemma_distinct_remove(old_r.pairs(), i);
        assert forall|j: int| 0 <= j < new_r.entries@.len() implies {
            let e = #[trigger] new_r.entries@[j];
            e.id@ == sid_seq(e.made@.0, e.made@.1, e.made@.2) && e.made@.2 < new_r.next_counter
        } by {
            let j2: int = if j < i {
                j
            } else {
                j + 1
            };
            assert(new_r.entries@[j] == old_r.entries@[j2]);
        }
        lemma_amap_remove(old_r.pairs(), i);
    }

    /// Attempt to enqueue one frame for `sid` without blocking: append when
    /// there is room, drop the frame when the queue is full, remove the
    /// entry when its consumer has terminated. A successful lookup also
    /// refreshes the session's activity timestamp.
    pub fn deliver(&mut self, sid: &str, frame: String, now: u64) -> (r: EnqueueResult)
        requires
            old(self).wf(),
        ensures
            final(self).wf(),
            ({
                let (m, res) = deliver_model(old(self)@, sid@, frame@, now);
                final(self)@ == m && r == res
            }),
    {
        let ghost old_pairs = self.pairs();
        let ghost old_self = *self;
        match self.find_index(sid) {
            None => {
                proof {
                    lemma_amap_contains(old_pairs, sid@);
                }
                EnqueueResult::NotFound
            },
            Some(i) => {
                proof {
                    lemma_amap_index(old_pairs, i as int);
                }
                if !self.entries[i].session.open {
                    let _ = self.entries.remove(i);
                    proof {
                        Self::lemma_remove_wf(old_self, *self, i as int);
                    }
                    EnqueueResult::Gone
                } else {
                    let mut e = self.entries.remove(i);
                    e.session.last_activity = now;
                    let full = e.session.queue.len() >= QUEUE_CAPACITY;
                    let ghost old_model = old_self.entries@[i as int].session@;
                    if !full {
                        e.session.queue.push(frame);
                    }
                    proof {
                        if full {
                            assert(e.session@ == SessionModel {
                                frames: old_model.frames,
                                last_activity: now,
                                open: true,
                            });
                        } else {
                            assert(e.session@.frames =~= old_model.frames.push(frame@));
                        }
                    }
                    self.entries.insert(i, e);
                    proof {
                        assert(self.entries@ =~= old_self.entries@.update(
                            i as int,
                            self.entries@[i as int],
                        ));
                        Self::lemma_update_wf(old_self, *self, i as int);
                        lemma_amap_update(old_pairs, i as int, self.entries@[i as int].session@);
                    }
                    if full {
                        EnqueueResult::Dropped
                    } else {
                        EnqueueResult::Delivered
                    }
                }
            },
        }
    }

    /// Take the next frame for `sid`, in enqueue order. An absent session
    /// is the terminal signal for the stream handler.
    pub fn pop_frame(&mut self, sid: &str) -> (r: PopResult)
        requires
            old(self).wf(),
        ensures
            final(self).wf(),
            !old(self)@.contains_key(sid@) ==> r is Closed && final(self)@ == old(self)@,
            old(self)@.contains_key(sid@) && old(self)@[sid@].frames.len() == 0 ==> r is Empty
                && final(self)@ == old(self)@,
            old(self)@.contains_key(sid@) && old(self)@[sid@].frames.len() > 0 ==> ({
                &&& r matches PopResult::Frame(f) && f@ == old(self)@[sid@].frames[0]
                &&& final(self)@ == old(self)@.insert(
                    sid@,
                    SessionModel {
                        frames: old(self)@[sid@].frames.drop_first(),
                        last_activity: old(self)@[sid@].last_activity,
                        open: old(self)@[sid@].open,
                    },
                )
            }),
    {
        let ghost old_pairs = self.pairs();
        let ghost old_self = *self;
        match self.find_index(sid) {
            None => {
                proof {
                    lemma_amap_contains(old_pairs, sid@);
                }
                PopResult::Closed
            },
            Some(i) => {
                proof {
                    lemma_amap_index(old_pairs, i as int);
                }
                if self.entries[i].session.queue.len() == 0 {
                    proof {
                        assert(old(self)@[sid@].frames.len() == 0);
                    }
                    PopResult::Empty
                } else {
                    let mut e = self.entries.remove(i);
                    let frame = e.session.queue.remove(0);
                    let ghost old_model = old_self.entries@[i as int].session@;
                    proof {
                        assert(frame@ == old_model.frames[0]);
                        assert(e.session@.frames =~= old_model.frames.drop_first());
                    }
                    self.entries.insert(i, e);
                    proof {
                        assert(self.entries@ =~= old_self.entries@.update(
                            i as int,
                            self.entries@[i as int],
                        ));
                        Self::lemma_update_wf(old_self, *self, i as int);
                        lemma_amap_update(old_pairs, i as int, self.entries@[i as int].session@);
                    }
                    PopResult::Frame(frame)
                }
            },
        }
    }

    /// Record that the consumer side of `sid`'s queue has terminated,
    /// without removing the entry; a later delivery attempt observes the
    /// closed queue. Absent sessions are left untouched.
    pub fn close_consumer(&mut self, sid: &str) -> (r: bool)
        requires
            old(self).wf(),
        ensures
            final(self).wf(),
            !old(self)@.contains_key(sid@) ==> !r && final(self)@ == old(self)@,
            old(self)@.contains_key(sid@) ==> r && final(self)@ == old(self)@.insert(
                sid@,
                SessionModel {
                    frames: old(self)@[sid@].frames,
                    last_activity: old(self)@[sid@].last_activity,
                    open: false,
                },
            ),
    {
        let ghost old_pairs = self.pairs();
        let ghost old_self = *self;
        match self.find_index(sid) {
            None => {
                proof {
                    lemma_amap_contains(old_pairs, sid@);
                }
                false
            },
            Some(i) => {
                proof {
                    lemma_amap_index(old_pairs, i as int);
                }
                let mut e = self.entries.remove(i);
                e.session.open = false;
                proof {
                    assert(e.session@.frames =~= old_self.entries@[i as int].session@.frames);
                }
                self.entries.insert(i, e);
                proof {
                    assert(self.entries@ =~= old_self.entries@.update(
                        i as int,
                        self.entries@[i as int],
                    ));
                    Self::lemma_update_wf(old_self, *self, i as int);
                    lemma_amap_update(old_pairs, i as int, self.entries@[i as int].session@);
                }
                true
            },
        }
    }

    /// Remove `sid` from the registry. Removing an absent session is not
    /// an error: both teardown paths converge here.
    pub fn disconnect(&mut self, sid: &str)
        requires
            old(self).wf(),
        ensures
            final(self).wf(),
            final(self)@ == old(self)@.remove(sid@),
    {
        let ghost old_pairs = self.pairs();
        let ghost old_self = *self;
        match self.find_index(sid) {
            None => {
                proof {
                    lemma_amap_contains(old_pairs, sid@);
                    assert(old(self)@.remove(sid@) =~= old(self)@);
                }
            },
            Some(i) => {
                let _ = self.entries.remove(i);
                proof {
                    Self::lemma_remove_wf(old_self, *self, i as int);
                }
            },
        }
    }

    /// One reaper scan: evict every session idle beyond the threshold and
    /// return the evicted ids. Eviction removes the entry, which the
    /// session's stream handler observes as a closed queue on its next
    /// wake.
    pub fn reap(&mut self, now: u64) -> (r: Vec<String>)
        requires
            old(self).wf(),
        ensures
            final(self).wf(),
            final(self)@ == reap_model(old(self)@, now),
            forall|j: int|
                0 <= j < r@.len() ==> old(self)@.contains_key(#[trigger] r@[j]@) && stale(
                    old(self)@[r@[j]@],
                    now,
                ),
            forall|k: Seq<char>|
                old(self)@.contains_key(k) && stale(#[trigger] old(self)@[k], now) ==> exists|
                    j: int,
                |
                    0 <= j < r@.len() && r@[j]@ == k,
    {
        let ghost old_map = self@;
        proof {
            assert forall|k: Seq<char>| #[trigger] old_map.contains_key(k) implies exists|j: int|
                0 <= j < self.entries@.len() && self.entries@[j].id@ == k by {
                lemma_amap_contains(self.pairs(), k);
                let j = choose|j: int| 0 <= j < self.pairs().len() && self.pairs()[j].0 == k;
                assert(self.entries@[j].id@ == k);
            }
        }
        let mut reaped: Vec<String> = Vec::new();
        let mut i: usize = 0;
        while i < self.entries.len()
            invariant
                self.wf(),
                0 <= i <= self.entries@.len(),
                self.next_counter == old(self).next_counter,
                forall|j: int| 0 <= j < i ==> !stale(#[trigger] self.entries@[j].session@, now),
                forall|k: Seq<char>|
                    #[trigger] self@.contains_key(k) ==> old_map.contains_key(k) && old_map[k]
                        == self@[k],
                forall|k: Seq<char>|
                    old_map.contains_key(k) && !(#[trigger] self@.contains_key(k)) ==> stale(
                        old_map[k],
                        now,
                    ),
                forall|j: int|
                    0 <= j < reaped@.len() ==> old_map.contains_key(#[trigger] reaped@[j]@)
                        && stale(old_map[reaped@[j]@], now) && !self@.contains_key(reaped@[j]@),
                forall|k: Seq<char>|
                    old_map.contains_key(k) && stale(#[trigger] old_map[k], now) ==> (exists|
                        j: int,
                    |
                        0 <= j < reaped@.len() && reaped@[j]@ == k) || (exists|j: int|
                        i <= j < self.entries@.len() && self.entries@[j].id@ == k),
            decreases self.entries@.len() - i,
        {
            proof {
                lemma_amap_index(self.pairs(), i as int);
            }
            let idle = now > self.entries[i].session.last_activity && now
                - self.entries[i].session.last_activity > SESSION_TIMEOUT_SECS;
            if idle {
                let ghost pre = *self;
                let ghost pre_reaped = reaped@;
                let ghost k0 = pre.entries@[i as int].id@;
                let e = self.entries.remove(i);
                proof {
                    Self::lemma_remove_wf(pre, *self, i as int);
                    assert(stale(pre.entries@[i as int].session@, now));
                    assert(pre@.contains_key(k0) && pre@[k0] == pre.entries@[i as int].session@);
                }
                reaped.push(e.id);
                proof {
                    assert(reaped@[reaped@.len() - 1]@ == k0);
                    assert(self@ == pre@.remove(k0));
                    assert forall|j: int|
                        0 <= j < reaped@.len() implies old_map.contains_key(
                        #[trigger] reaped@[j]@,
                    ) && stale(old_map[reaped@[j]@], now) && !self@.contains_key(
                        reaped@[j]@,
                    ) by {
                        if j < pre_reaped.len() {
                            assert(reaped@[j] == pre_reaped[j]);
                            assert(!pre@.contains_key(pre_reaped[j]@));
                        } else {
                            assert(reaped@[j]@ == k0);
                        }
                    }
                    assert forall|k: Seq<char>|
                        old_map.contains_key(k) && stale(#[trigger] old_map[k], now) implies (
                    exists|j: int| 0 <= j < reaped@.len() && reaped@[j]@ == k) || (exists|j: int|
                        i <= j < self.entries@.len() && self.entries@[j].id@ == k) by {
                        if k == k0 {
                            assert(reaped@[reaped@.len() - 1]@ == k);
                        } else {
                            if exists|j: int| 0 <= j < pre_reaped.len() && pre_reaped[j]@ == k {
                                let j = choose|j: int|
                                    0 <= j < pre_reaped.len() && pre_reaped[j]@ == k;
                                assert(reaped@[j]@ == k);
                            } else if exists|j: int|
                                i <= j < pre.entries@.len() && pre.entries@[j].id@ == k {
                                let j = choose|j: int|
                                    i <= j < pre.entries@.len() && pre.entries@[j].id@ == k;
                                assert(j != i);
                                assert(self.entries@[j - 1] == pre.entries@[j]);
                                assert(self.entries@[j - 1].id@ == k);
                            }
                        }
                    }
                }
            } else {
                proof {
                    assert(!stale(self.entries@[i as int].session@, now));
                    assert forall|k: Seq<char>|
                        old_map.contains_key(k) && stale(#[trigger] old_map[k], now) implies (
                    exists|j: int| 0 <= j < reaped@.len() && reaped@[j]@ == k) || (exists|j: int|
                        i + 1 <= j < self.entries@.len() && self.entries@[j].id@ == k) by {
                        if exists|j: int|
                            i <= j < self.entries@.len() && self.entries@[j].id@ == k {
                            let j = choose|j: int|
                                i <= j < self.entries@.len() && self.entries@[j].id@ == k;
                            if j == i {
                                assert(self.pairs()[i as int].0 == k);
                                assert(self@[k] == self.entries@[i as int].session@);
                                assert(false);
                            }
                        }
                    }
                }
                i = i + 1;
            }
        }
        proof {
            assert forall|k: Seq<char>| #[trigger] reap_model(old_map, now).contains_key(k) implies
                self@.contains_key(k) && self@[k] == reap_model(old_map, now)[k] by {
                if !self@.contains_key(k) {
                    assert(stale(old_map[k], now));
                    assert(!(exists|j: int|
                        i <= j < self.entries@.len() && self.entries@[j].id@ == k));
                }
            }
            assert forall|k: Seq<char>| #[trigger] self@.contains_key(k) implies reap_model(
                old_map,
                now,
            ).contains_key(k) by {
                lemma_amap_contains(self.pairs(), k);
                let j = choose|j: int| 0 <= j < self.pairs().len() && self.pairs()[j].0 == k;
                lemma_amap_index(self.pairs(), j);
                assert(!stale(self.entries@[j].session@, now));
            }
            assert(self@ =~= reap_model(old_map, now));
        }
        reaped
    }
}

impl View for Registry {
    type V = Map<Seq<char>, SessionModel>;

    closed spec fn view(&self) -> Map<Seq<char>, SessionModel> {
        amap(self.pairs())
    }
}

} // verus!
