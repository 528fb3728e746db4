//! Chat requests that are passed on.

use crate::json::json;
use crate::json::json_from_slice;
use crate::json::json_text;
use crate::json::object_value;
use crate::json::put;
use crate::json::text_value;
use crate::json::value_from_slice;
use crate::json::value_text;
use crate::json::Json;
use crate::server::reply::error_body;
use crate::server::reply::error_response;
use crate::server::reply::json_reply;
use crate::server::reply::Reply;
use crate::text::str_eq;
use crate::text::string_view;
use serde_json::Value;
use vstd::prelude::*;
use vstd::string::StringExecFns;

verus! {

/// A chat request as it goes to the backend model, whatever model it names;
/// `None` where its body is no JSON object.
pub open spec fn rerouted(
    parsed: Result<Json, Seq<char>>,
    backend_model: Seq<char>,
) -> Option<Seq<char>> {
    match parsed {
        Ok(Json::Object(o)) => Some(
            json_text(Json::Object(o.insert("model"@, Json::Str(backend_model)))),
        ),
        _ => None,
    }
}

/// Puts the backend model into a chat request that was read as `body`; `None`
/// where it is no object.
pub fn reroute(body: &Value, backend_model: &str) -> (r: Option<String>)
    ensures
        string_view(r) == rerouted(Ok(json(*body)), backend_model@),
{
    match body.as_object() {
        Some(o) => {
            let mut chat = o.clone();
            put(&mut chat, "model", text_value(backend_model));
            Some(value_text(&object_value(chat)))
        },
        None => None,
    }
}

/// The body that is passed on for a chat request whose body is `bytes`; `None`
/// where the bytes are passed on as they are, because they are no JSON object.
pub fn passthrough_body(bytes: &[u8], backend_model: &str) -> (r: Option<String>)
    ensures
        string_view(r) == rerouted(json_from_slice(bytes@), backend_model@),
{
    match value_from_slice(bytes) {
        Ok(body) => reroute(&body, backend_model),
        Err(_) => None,
    }
}

/// A header of a reply: its name, and the bytes of its value.
pub struct RawHeader {
    pub name: String,
    pub value: Vec<u8>,
}

/// What headers say.
pub open spec fn raw_views(headers: Seq<RawHeader>) -> Seq<(Seq<char>, Seq<u8>)> {
    headers.map_values(|h: RawHeader| (h.name@, h.value@))
}

/// Whether a header is about one connection alone.
pub open spec fn is_hop_header(name: Seq<char>) -> bool {
    name == "content-length"@ || name == "transfer-encoding"@ || name == "connection"@
}

/// Headers without those that are about one connection alone.
pub open spec fn passed_on(headers: Seq<(Seq<char>, Seq<u8>)>) -> Seq<(Seq<char>, Seq<u8>)> {
    headers.filter(|h: (Seq<char>, Seq<u8>)| !is_hop_header(h.0))
}

/// Tells whether a header is about one connection alone.
fn hop_header(name: &str) -> (r: bool)
    ensures
        r == is_hop_header(name@),
{
    str_eq(name, "content-length") || str_eq(name, "transfer-encoding") || str_eq(
        name,
        "connection",
    )
}

/// Picks the headers of an answer of the upstream that the client gets.
pub fn forwarded_headers(headers: &Vec<RawHeader>) -> (r: Vec<RawHeader>)
    ensures
        raw_views(r@) == passed_on(raw_views(headers@)),
{
    let mut out: Vec<RawHeader> = Vec::new();
    let ghost all = raw_views(headers@);
    let ghost keep = |h: (Seq<char>, Seq<u8>)| !is_hop_header(h.0);
    proof {
        reveal(Seq::filter);
        assert(raw_views(out@) =~= all.take(0).filter(keep));
    }
    let mut i: usize = 0;
    while i < headers.len()
        invariant
            i <= headers.len(),
            all == raw_views(headers@),
            keep == (|h: (Seq<char>, Seq<u8>)| !is_hop_header(h.0)),
            raw_views(out@) == all.take(i as int).filter(keep),
        decreases headers.len() - i,
    {
        let ghost before = raw_views(out@);
        proof {
            reveal(Seq::filter);
            assert(all.take(i + 1).drop_last() =~= all.take(i as int));
            assert(all.take(i + 1).last() == all[i as int]);
        }
        if !hop_header(headers[i].name.as_str()) {
            let header = RawHeader {
                name: headers[i].name.clone(),
                value: headers[i].value.clone(),
            };
            proof {
                assert(header.value@ =~= headers@[i as int].value@);
            }
            out.push(header);
            proof {
                assert(raw_views(out@) =~= before.push(all[i as int]));
            }
        }
        i = i + 1;
    }
    proof {
        assert(all.take(all.len() as int) =~= all);
    }
    out
}

/// The reply where the upstream could not be reached.
pub fn passthrough_failure(error: &str) -> (r: Reply)
    ensures
        r@ == json_reply(502, error_body("upstream error: "@ + error@)),
{
    let mut message = "upstream error: ".to_string();
    message.append(error);
    error_response(502, message.as_str())
}

/// The reply where the body of the upstream's answer could not be read.
pub fn unreadable_body(error: &str) -> (r: Reply)
    ensures
        r@ == json_reply(502, error_body("failed reading upstream body: "@ + error@)),
{
    let mut message = "failed reading upstream body: ".to_string();
    message.append(error);
    error_response(502, message.as_str())
}

} // verus!
