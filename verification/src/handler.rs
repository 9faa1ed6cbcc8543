//! The inbound message handler: bridge one posted request to its session.
//!
//! The handler classifies the request body, lets the caller run the router
//! (an external collaborator that turns a request into an optional
//! response), wraps a produced response into a `message` frame, attempts a
//! non-blocking delivery onto the addressed session's queue, and renders
//! the HTTP reply owed to the requester. Everything except the JSON parse
//! itself is verified; the parse is a single trusted call into serde_json.

use vstd::prelude::*;

use crate::frames::{message_frame, message_frame_text};
use crate::registry::{deliver_model, EnqueueResult, Registry, SessionModel};
use crate::text::{ascii_seq, dec_of, lemma_dec_ascii, u64_to_dec};
use vstd::string::StringSliceAdditionalSpecFns;

verus! {

/// Whether a body parses as a protocol request: a JSON object carrying a
/// string `method` member. A function of the characters alone.
pub uninterp spec fn rpc_well_formed(body: Seq<char>) -> bool;

/// Whether a well-formed body carries a correlation `id` member, i.e.
/// expects a reply. A function of the characters alone.
pub uninterp spec fn rpc_has_id(body: Seq<char>) -> bool;

/// Relies on serde_json::from_str for JSON parsing and on
/// serde_json::Value::get / Value::is_string for reading the `method` and
/// `id` members: whether the body parses and whether it has an `id` are
/// functions of the characters alone.
#[verifier::external_body]
fn parse_request(body: &str) -> (r: Option<bool>)
    ensures
        r is Some <==> rpc_well_formed(body@),
        r matches Some(h) ==> h == rpc_has_id(body@),
{
    match serde_json::from_str::<serde_json::Value>(body) {
        Ok(v) => match v.get("method") {
            Some(m) if m.is_string() => Some(v.get("id").is_some()),
            _ => None,
        },
        Err(_) => None,
    }
}

/// Classify a request body: `None` for a malformed body, otherwise whether
/// it carries a correlation id.
pub fn classify_request(body: &str) -> (r: Option<bool>)
    ensures
        r is Some <==> rpc_well_formed(body@),
        r matches Some(h) ==> h == rpc_has_id(body@),
{
    parse_request(body)
}

/// The text of an HTTP reply with a JSON body and permissive CORS headers.
pub open spec fn http_text(status: nat, status_text: Seq<char>, body: Seq<char>) -> Seq<char> {
    "HTTP/1.1 "@ + dec_of(status) + " "@ + status_text
        + "\r\nContent-Type: application/json\r\nContent-Length: "@ + dec_of(body.len())
        + "\r\nAccess-Control-Allow-Origin: *\r\nAccess-Control-Allow-Methods: GET, POST, OPTIONS\r\nAccess-Control-Allow-Headers: Content-Type\r\nConnection: close\r\n\r\n"@
        + body
}

/// Render an HTTP reply as the bytes to put on the wire. The body must be
/// ASCII so that its character count is its `Content-Length`.
pub fn http_response(status: u16, status_text: &str, body: &str) -> (r: Vec<u8>)
    requires
        vstd::string::is_ascii(status_text),
        vstd::string::is_ascii(body),
    ensures
        r@ == ascii_seq(http_text(status as nat, status_text@, body@)),
{
    proof {
        reveal_strlit("HTTP/1.1 ");
        reveal_strlit(" ");
        reveal_strlit("\r\nContent-Type: application/json\r\nContent-Length: ");
        reveal_strlit(
            "\r\nAccess-Control-Allow-Origin: *\r\nAccess-Control-Allow-Methods: GET, POST, OPTIONS\r\nAccess-Control-Allow-Headers: Content-Type\r\nConnection: close\r\n\r\n",
        );
        lemma_dec_ascii(status as nat);
        lemma_dec_ascii(body@.len());
    }
    let mut s = ("HTTP/1.1 ").to_owned();
    let st = u64_to_dec(status as u64);
    s.append(st.as_str());
    s.append(" ");
    s.append(status_text);
    s.append("\r\nContent-Type: application/json\r\nContent-Length: ");
    let bl = u64_to_dec(body.unicode_len() as u64);
    s.append(bl.as_str());
    s.append(
        "\r\nAccess-Control-Allow-Origin: *\r\nAccess-Control-Allow-Methods: GET, POST, OPTIONS\r\nAccess-Control-Allow-Headers: Content-Type\r\nConnection: close\r\n\r\n",
    );
    s.append(body);
    let ss = s.as_str();
    proof {
        assert(st@ == dec_of(status as nat));
        assert(bl@ == dec_of(body@.len()));
        assert(ss@ =~= http_text(status as nat, status_text@, body@));
        assert(vstd::utf8::is_ascii_chars("HTTP/1.1 "@));
        assert(vstd::utf8::is_ascii_chars(" "@));
        assert(vstd::utf8::is_ascii_chars(
            "\r\nContent-Type: application/json\r\nContent-Length: "@,
        ));
        assert(vstd::utf8::is_ascii_chars(
            "\r\nAccess-Control-Allow-Origin: *\r\nAccess-Control-Allow-Methods: GET, POST, OPTIONS\r\nAccess-Control-Allow-Headers: Content-Type\r\nConnection: close\r\n\r\n"@,
        ));
        let t1 = "HTTP/1.1 "@ + dec_of(status as nat);
        let t2 = t1 + " "@;
        let t3 = t2 + status_text@;
        let t4 = t3 + "\r\nContent-Type: application/json\r\nContent-Length: "@;
        let t5 = t4 + dec_of(body@.len());
        let t6 = t5
            + "\r\nAccess-Control-Allow-Origin: *\r\nAccess-Control-Allow-Methods: GET, POST, OPTIONS\r\nAccess-Control-Allow-Headers: Content-Type\r\nConnection: close\r\n\r\n"@;
        let t7 = t6 + body@;
        vstd::utf8::is_ascii_chars_concat(t1, "HTTP/1.1 "@, dec_of(status as nat));
        vstd::utf8::is_ascii_chars_concat(t2, t1, " "@);
        vstd::utf8::is_ascii_chars_concat(t3, t2, status_text@);
        vstd::utf8::is_ascii_chars_concat(
            t4,
            t3,
            "\r\nContent-Type: application/json\r\nContent-Length: "@,
        );
        vstd::utf8::is_ascii_chars_concat(t5, t4, dec_of(body@.len()));
        vstd::utf8::is_ascii_chars_concat(
            t6,
            t5,
            "\r\nAccess-Control-Allow-Origin: *\r\nAccess-Control-Allow-Methods: GET, POST, OPTIONS\r\nAccess-Control-Allow-Headers: Content-Type\r\nConnection: close\r\n\r\n"@,
        );
        vstd::utf8::is_ascii_chars_concat(t7, t6, body@);
        assert(vstd::utf8::is_ascii_chars(ss@));
        vstd::string::is_ascii_spec_bytes(ss);
    }
    let r = ss.as_bytes_vec();
    proof {
        assert(r@ =~= ascii_seq(http_text(status as nat, status_text@, body@)));
    }
    r
}

/// How one posted request ended, which fixes the HTTP reply owed to it.
#[derive(PartialEq, Eq, Structural, Clone, Copy, Debug)]
pub enum PostOutcome {
    /// A well-formed request with a correlation id was taken; the reply
    /// will arrive asynchronously on the stream.
    Accepted,
    /// A well-formed notification without a correlation id was processed.
    Processed,
    /// The body did not parse as a protocol request.
    BadRequest,
    /// The addressed session is not registered.
    NotFound,
    /// The addressed session's transport has already terminated.
    Gone,
}

/// The HTTP status code owed to an outcome.
pub open spec fn outcome_status(o: PostOutcome) -> nat {
    match o {
        PostOutcome::Accepted => 202,
        PostOutcome::Processed => 200,
        PostOutcome::BadRequest => 400,
        PostOutcome::NotFound => 404,
        PostOutcome::Gone => 410,
    }
}

/// The status text owed to an outcome.
pub open spec fn outcome_text(o: PostOutcome) -> Seq<char> {
    match o {
        PostOutcome::Accepted => "Accepted"@,
        PostOutcome::Processed => "OK"@,
        PostOutcome::BadRequest => "Bad Request"@,
        PostOutcome::NotFound => "Not Found"@,
        PostOutcome::Gone => "Gone"@,
    }
}

/// The JSON body owed to an outcome.
pub open spec fn outcome_body(o: PostOutcome) -> Seq<char> {
    match o {
        PostOutcome::Accepted => "{\"ok\":true}"@,
        PostOutcome::Processed => "{\"ok\":true}"@,
        PostOutcome::BadRequest => "{\"error\":\"Invalid JSON-RPC\"}"@,
        PostOutcome::NotFound => "{\"error\":\"Session not found\"}"@,
        PostOutcome::Gone => "{\"error\":\"Session closed\"}"@,
    }
}

/// The bytes of the HTTP reply owed to an outcome.
pub open spec fn reply_bytes(o: PostOutcome) -> Seq<u8> {
    ascii_seq(http_text(outcome_status(o), outcome_text(o), outcome_body(o)))
}

/// A string view of an optional router response.
pub open spec fn opt_str_view(o: Option<&str>) -> Option<Seq<char>> {
    match o {
        Some(s) => Some(s@),
        None => None,
    }
}

/// The registry and outcome after one posted request, given the router's
/// answer. A malformed body leaves the registry untouched. A produced
/// response is framed and delivered without blocking; delivery onto a full
/// queue drops the frame but still acknowledges the request, since the
/// router's work already happened.
pub open spec fn post_model(
    m: Map<Seq<char>, SessionModel>,
    sid: Seq<char>,
    body: Seq<char>,
    response: Option<Seq<char>>,
    now: u64,
) -> (Map<Seq<char>, SessionModel>, PostOutcome) {
    if !rpc_well_formed(body) {
        (m, PostOutcome::BadRequest)
    } else {
        let ok = if rpc_has_id(body) {
            PostOutcome::Accepted
        } else {
            PostOutcome::Processed
        };
        match response {
            None => (m, ok),
            Some(json) => {
                let (m2, e) = deliver_model(m, sid, message_frame_text(json), now);
                match e {
                    EnqueueResult::NotFound => (m2, PostOutcome::NotFound),
                    EnqueueResult::Gone => (m2, PostOutcome::Gone),
                    _ => (m2, ok),
                }
            },
        }
    }
}

/// Render the HTTP reply owed to an outcome.
pub fn reply(o: PostOutcome) -> (r: Vec<u8>)
    ensures
        r@ == reply_bytes(o),
{
    proof {
        reveal_strlit("Accepted");
        reveal_strlit("OK");
        reveal_strlit("Bad Request");
        reveal_strlit("Not Found");
        reveal_strlit("Gone");
        reveal_strlit("{\"ok\":true}");
        reveal_strlit("{\"error\":\"Invalid JSON-RPC\"}");
        reveal_strlit("{\"error\":\"Session not found\"}");
        reveal_strlit("{\"error\":\"Session closed\"}");
    }
    match o {
        PostOutcome::Accepted => http_response(202, "Accepted", "{\"ok\":true}"),
        PostOutcome::Processed => http_response(200, "OK", "{\"ok\":true}"),
        PostOutcome::BadRequest => http_response(
            400,
            "Bad Request",
            "{\"error\":\"Invalid JSON-RPC\"}",
        ),
        PostOutcome::NotFound => http_response(
            404,
            "Not Found",
            "{\"error\":\"Session not found\"}",
        ),
        PostOutcome::Gone => http_response(410, "Gone", "{\"error\":\"Session closed\"}"),
    }
}

/// Handle one posted request end to end, given the router's answer for a
/// well-formed body: classify the body, frame and deliver the response if
/// one was produced, and render the HTTP reply. The caller runs the router
/// between classification and this call; a malformed body ignores
/// `response` because the router is never consulted for one.
pub fn handle_post(
    reg: &mut Registry,
    sid: &str,
    body: &str,
    response: Option<&str>,
    now: u64,
) -> (r: Vec<u8>)
    requires
        old(reg).wf(),
    ensures
        final(reg).wf(),
        ({
            let (m, o) = post_model(old(reg)@, sid@, body@, opt_str_view(response), now);
            final(reg)@ == m && r@ == reply_bytes(o)
        }),
{
    match classify_request(body) {
        None => reply(PostOutcome::BadRequest),
        Some(has_id) => {
            let ok = if has_id {
                PostOutcome::Accepted
            } else {
                PostOutcome::Processed
            };
            match response {
                None => reply(ok),
                Some(json) => {
                    let frame = message_frame(json);
                    match reg.deliver(sid, frame, now) {
                        EnqueueResult::NotFound => reply(PostOutcome::NotFound),
                        EnqueueResult::Gone => reply(PostOutcome::Gone),
                        _ => reply(ok),
                    }
                },
            }
        },
    }
}

} // verus!
