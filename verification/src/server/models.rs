//! The list of models that the client gets.

use crate::catalog::build_models_response;
use crate::catalog::models_list;
use crate::json::array_of;
use crate::json::elements;
use crate::json::get;
use crate::json::json;
use crate::json::json_from_slice;
use crate::json::json_seq;
use crate::json::text_member;
use crate::json::text_of;
use crate::json::value_from_slice;
use crate::json::Json;
use crate::server::reply::json_reply;
use crate::server::reply::json_response;
use crate::server::reply::Reply;
use crate::text::texts;
use serde_json::Value;
use vstd::prelude::*;

verus! {

/// The ids in a list of models; an element without one is passed over.
pub open spec fn ids_among(models: Seq<Json>) -> Seq<Seq<char>>
    decreases models.len(),
{
    if models.len() == 0 {
        Seq::empty()
    } else {
        let before = ids_among(models.drop_last());
        match text_of(models.last().get("id"@)) {
            Some(id) => before.push(id),
            None => before,
        }
    }
}

/// The ids in what the upstream answered when it was asked for its models; none
/// where the answer is no list of models.
pub open spec fn ids_in(body: Json) -> Seq<Seq<char>> {
    match array_of(body.get("data"@)) {
        Some(models) => ids_among(models),
        None => Seq::empty(),
    }
}

/// The ids in the outcome of reading the upstream's answer.
pub open spec fn ids_read(parsed: Option<Result<Json, Seq<char>>>) -> Seq<Seq<char>> {
    match parsed {
        Some(Ok(body)) => ids_in(body),
        _ => Seq::empty(),
    }
}

/// Reads the ids in what the upstream answered.
pub fn model_ids(body: &Value) -> (r: Vec<String>)
    ensures
        texts(r@) == ids_in(json(*body)),
{
    let mut ids: Vec<String> = Vec::new();
    proof {
        assert(texts(ids@) =~= Seq::<Seq<char>>::empty());
    }
    match elements(get(body, "data")) {
        Some(models) => {
            let ghost all = json_seq(models@);
            proof {
                assert(all.take(0) =~= Seq::<Json>::empty());
            }
            let mut i: usize = 0;
            while i < models.len()
                invariant
                    i <= models.len(),
                    all == json_seq(models@),
                    texts(ids@) == ids_among(all.take(i as int)),
                decreases models.len() - i,
            {
                let ghost before = texts(ids@);
                proof {
                    assert(all.take(i + 1).drop_last() =~= all.take(i as int));
                    assert(all.take(i + 1).last() == json(models@[i as int]));
                }
                if let Some(id) = text_member(&models[i], "id") {
                    ids.push(id.to_string());
                    proof {
                        assert(texts(ids@) =~= before.push(id@));
                    }
                }
                i = i + 1;
            }
            proof {
                assert(all.take(all.len() as int) =~= all);
            }
        },
        None => {},
    }
    ids
}

/// The reply with the list of models, from what the upstream answered; `None`
/// where it did not answer with JSON.
pub fn models_response(upstream: Option<&Value>) -> (r: Reply)
    ensures
        r@ == json_reply(
            200,
            models_list(
                match upstream {
                    Some(body) => ids_in(json(*body)),
                    None => Seq::empty(),
                },
            ),
        ),
{
    let ids = match upstream {
        Some(body) => model_ids(body),
        None => {
            let none: Vec<String> = Vec::new();
            proof {
                assert(texts(none@) =~= Seq::<Seq<char>>::empty());
            }
            none
        },
    };
    json_response(200, &build_models_response(ids.as_slice()))
}

/// The reply with the list of models, from the bytes that the upstream answered
/// with; `None` where it did not answer with success.
pub fn handle_models(upstream: Option<&[u8]>) -> (r: Reply)
    ensures
        r@ == json_reply(
            200,
            models_list(
                ids_read(
                    match upstream {
                        Some(bytes) => Some(json_from_slice(bytes@)),
                        None => None,
                    },
                ),
            ),
        ),
{
    match upstream {
        Some(bytes) => match value_from_slice(bytes) {
            Ok(body) => models_response(Some(&body)),
            Err(_) => models_response(None),
        },
        None => models_response(None),
    }
}

} // verus!
