//! Event-stream frame texts and the request path's session-id parameter.
//!
//! A frame is one newline-delimited unit written to the stream: the
//! `endpoint` announcement sent first, a `message` frame carrying one
//! serialized response, or a comment-style keepalive. Only framing matters
//! here; payloads are opaque.

use vstd::prelude::*;

verus! {

/// Text of the `endpoint` frame advertising where to post requests.
pub open spec fn endpoint_frame_text(sid: Seq<char>) -> Seq<char> {
    "event: endpoint\ndata: /message?sessionId="@ + sid + "\n\n"@
}

/// Text of a `message` frame carrying one serialized response.
pub open spec fn message_frame_text(json: Seq<char>) -> Seq<char> {
    "event: message\ndata: "@ + json + "\n\n"@
}

/// Text of the comment-style keepalive frame.
pub open spec fn keepalive_frame_text() -> Seq<char> {
    ": keepalive\n\n"@
}

/// Text of the response head that establishes the event stream.
pub open spec fn stream_headers_text() -> Seq<char> {
    "HTTP/1.1 200 OK\r\nContent-Type: text/event-stream\r\nCache-Control: no-cache\r\nConnection: keep-alive\r\nAccess-Control-Allow-Origin: *\r\n\r\n"@
}

/// Build the `endpoint` frame for one session id.
pub fn endpoint_frame(sid: &str) -> (r: String)
    ensures
        r@ == endpoint_frame_text(sid@),
{
    let mut s = ("event: endpoint\ndata: /message?sessionId=").to_owned();
    s.append(sid);
    s.append("\n\n");
    s
}

/// Build a `message` frame around one serialized response.
pub fn message_frame(json: &str) -> (r: String)
    ensures
        r@ == message_frame_text(json@),
{
    let mut s = ("event: message\ndata: ").to_owned();
    s.append(json);
    s.append("\n\n");
    s
}

/// Build the keepalive frame.
pub fn keepalive_frame() -> (r: String)
    ensures
        r@ == keepalive_frame_text(),
{
    (": keepalive\n\n").to_owned()
}

/// Build the response head that establishes the event stream.
pub fn stream_headers() -> (r: String)
    ensures
        r@ == stream_headers_text(),
{
    ("HTTP/1.1 200 OK\r\nContent-Type: text/event-stream\r\nCache-Control: no-cache\r\nConnection: keep-alive\r\nAccess-Control-Allow-Origin: *\r\n\r\n").to_owned()
}

/// First position at or after `from` holding `c`, or the length if none does.
pub open spec fn index_of_from(s: Seq<char>, c: char, from: int) -> int
    decreases s.len() - from,
{
    if from < 0 || from >= s.len() {
        s.len() as int
    } else if s[from] == c {
        from
    } else {
        index_of_from(s, c, from + 1)
    }
}

/// The found position lies between `from` and the length.
pub proof fn lemma_index_of_from_bounds(s: Seq<char>, c: char, from: int)
    requires
        0 <= from <= s.len(),
    ensures
        from <= index_of_from(s, c, from) <= s.len(),
    decreases s.len() - from,
{
    if from < s.len() && s[from] != c {
        lemma_index_of_from_bounds(s, c, from + 1);
    }
}

/// When `c` does not occur at or after `from`, the search yields the length.
pub proof fn lemma_index_of_from_none(s: Seq<char>, c: char, from: int)
    requires
        0 <= from <= s.len(),
        forall|j: int| from <= j < s.len() ==> #[trigger] s[j] != c,
    ensures
        index_of_from(s, c, from) == s.len(),
    decreases s.len() - from,
{
    if from < s.len() {
        lemma_index_of_from_none(s, c, from + 1);
    }
}

/// The search finds the first occurrence of `c` at or after `from`.
pub proof fn lemma_index_of_from_first(s: Seq<char>, c: char, from: int, k: int)
    requires
        0 <= from <= k < s.len(),
        s[k] == c,
        forall|j: int| from <= j < k ==> #[trigger] s[j] != c,
    ensures
        index_of_from(s, c, from) == k,
    decreases k - from,
{
    if from < k {
        lemma_index_of_from_first(s, c, from + 1, k);
    }
}

/// The query parameter name that carries the session id.
pub open spec fn sid_param_prefix() -> Seq<char> {
    "sessionId="@
}

/// Whether `s` starts with `p`.
pub open spec fn starts_with(s: Seq<char>, p: Seq<char>) -> bool {
    p.len() <= s.len() && s.subrange(0, p.len() as int) == p
}

/// The session id taken from the parameter list `q` starting at position `p`:
/// the first `&`-separated parameter with the `sessionId=` prefix, without
/// that prefix.
pub open spec fn session_id_of_params(q: Seq<char>, p: int) -> Option<Seq<char>>
    decreases q.len() - p,
        via session_id_of_params_decreases
{
    if !(0 <= p <= q.len()) {
        None
    } else {
        let e = index_of_from(q, '&', p);
        let param = q.subrange(p, e);
        if starts_with(param, sid_param_prefix()) {
            Some(param.skip(sid_param_prefix().len() as int))
        } else if e >= q.len() {
            None
        } else {
            session_id_of_params(q, e + 1)
        }
    }
}

#[via_fn]
proof fn session_id_of_params_decreases(q: Seq<char>, p: int) {
    if 0 <= p <= q.len() {
        lemma_index_of_from_bounds(q, '&', p);
    }
}

/// The session id carried by a request path: the part of the query between
/// the first `?` and the next `?` or the end is read as a parameter list.
pub open spec fn session_id_of_path(path: Seq<char>) -> Option<Seq<char>> {
    let q0 = index_of_from(path, '?', 0);
    if q0 >= path.len() {
        None
    } else {
        let q1 = index_of_from(path, '?', q0 + 1);
        session_id_of_params(path.subrange(q0 + 1, q1), 0)
    }
}

/// First position at or after `from` holding `c` in `s`, or the length.
fn find_char(s: &str, c: char, from: usize) -> (r: usize)
    requires
        from <= s@.len(),
    ensures
        r == index_of_from(s@, c, from as int),
        from <= r <= s@.len(),
{
    let n = s.unicode_len();
    let mut i: usize = from;
    while i < n
        invariant
            from <= i <= n,
            n == s@.len(),
            index_of_from(s@, c, from as int) == index_of_from(s@, c, i as int),
        decreases n - i,
    {
        if s.get_char(i) == c {
            return i;
        }
        i = i + 1;
    }
    i
}

/// Whether the characters of `s` between `from` and `to` start with `prefix`.
fn str_prefix_eq(s: &str, from: usize, to: usize, prefix: &str) -> (r: bool)
    requires
        from <= to <= s@.len(),
    ensures
        r == starts_with(s@.subrange(from as int, to as int), prefix@),
{
    let plen = prefix.unicode_len();
    if to - from < plen {
        return false;
    }
    let ghost part = s@.subrange(from as int, to as int);
    let mut j: usize = 0;
    while j < plen
        invariant
            from + plen <= to <= s@.len(),
            0 <= j <= plen,
            plen == prefix@.len(),
            part == s@.subrange(from as int, to as int),
            forall|k: int| 0 <= k < j ==> part[k] == prefix@[k],
        decreases plen - j,
    {
        if s.get_char(from + j) != prefix.get_char(j) {
            proof {
                assert(part[j as int] == s@[from + j]);
                if starts_with(part, prefix@) {
                    assert(part.subrange(0, plen as int)[j as int] == prefix@[j as int]);
                }
            }
            return false;
        }
        proof {
            assert(part[j as int] == s@[from + j]);
        }
        j = j + 1;
    }
    proof {
        assert(part.subrange(0, plen as int) =~= prefix@);
    }
    true
}

/// Extract the session id from a request path such as
/// `/message?sessionId=abc`: the first parameter of the query that carries
/// the `sessionId=` prefix.
pub fn extract_session_id(path: &str) -> (r: Option<String>)
    ensures
        match r {
            Some(s) => session_id_of_path(path@) == Some(s@),
            None => session_id_of_path(path@) is None,
        },
{
    let n = path.unicode_len();
    let q0 = find_char(path, '?', 0);
    if q0 == n {
        return None;
    }
    let q1 = find_char(path, '?', q0 + 1);
    let query = path.substring_char(q0 + 1, q1);
    let qlen = query.unicode_len();
    proof {
        reveal_strlit("sessionId=");
    }
    let prefix = "sessionId=";
    let plen = prefix.unicode_len();
    let mut p: usize = 0;
    loop
        invariant
            0 <= p <= qlen,
            qlen == query@.len(),
            plen == 10,
            prefix@ == sid_param_prefix(),
            query@ == path@.subrange(q0 + 1, q1 as int),
            session_id_of_path(path@) == session_id_of_params(query@, p as int),
        decreases qlen - p,
    {
        proof {
            reveal_strlit("sessionId=");
        }
        let e = find_char(query, '&', p);
        let ghost param = query@.subrange(p as int, e as int);
        if str_prefix_eq(query, p, e, prefix) {
            proof {
                assert(starts_with(param, prefix@));
                assert(param.len() == e - p);
            }
            let val = query.substring_char(p + plen, e);
            proof {
                assert(val@ =~= param.skip(10));
            }
            return Some(val.to_owned());
        }
        if e == qlen {
            return None;
        }
        p = e + 1;
    }
}

} // verus!
