//! What the list of models says.

use crate::catalog::curated;
use crate::catalog::curated_ids;
use crate::catalog::curated_listing;
use crate::catalog::each_model_is_listed_once;
use crate::catalog::listed_ids;
use crate::catalog::listings;
use crate::catalog::models_list;
use crate::catalog::other_ids;
use crate::catalog::plain_listing;
use crate::catalog::CuratedEntry;
use crate::catalog::ModelUseCase;
use crate::json::Json;
use crate::json_laws::array_at;
use crate::json_laws::at;
use crate::json_laws::has_only;
use crate::json_laws::str_at;
use vstd::prelude::*;

verus! {

/// Whether a value lists a model that is known, with all that is known of it.
pub open spec fn lists(
    v: Json,
    id: Seq<char>,
    display_name: Seq<char>,
    description: Seq<char>,
    context_window: u64,
    reasoning: bool,
    tool_calls: bool,
    use_case: Seq<char>,
) -> bool {
    &&& has_only(
        v,
        set![
            "id"@,
            "object"@,
            "created"@,
            "owned_by"@,
            "display_name"@,
            "description"@,
            "context_window"@,
            "reasoning"@,
            "tool_calls"@,
            "use_case"@,
            "curated"@,
        ],
    )
    &&& at(v, "id"@) == Some(Json::Str(id))
    &&& at(v, "object"@) == Some(Json::Str("model"@))
    &&& at(v, "created"@) == Some(Json::Unsigned(0))
    &&& at(v, "owned_by"@) == Some(Json::Str("nvidia"@))
    &&& at(v, "display_name"@) == Some(Json::Str(display_name))
    &&& at(v, "description"@) == Some(Json::Str(description))
    &&& at(v, "context_window"@) == Some(Json::Unsigned(context_window))
    &&& at(v, "reasoning"@) == Some(Json::Bool(reasoning))
    &&& at(v, "tool_calls"@) == Some(Json::Bool(tool_calls))
    &&& at(v, "use_case"@) == Some(Json::Str(use_case))
    &&& at(v, "curated"@) == Some(Json::Bool(true))
}

/// The word for what a model is good for.
pub open spec fn use_word(u: ModelUseCase) -> Seq<char> {
    match u {
        ModelUseCase::Coding => "coding"@,
        ModelUseCase::Reasoning => "reasoning"@,
        ModelUseCase::Fast => "fast"@,
        ModelUseCase::Specialty => "specialty"@,
    }
}

/// Whether a value lists the model `m`.
pub open spec fn lists_model(v: Json, m: CuratedEntry) -> bool {
    lists(
        v,
        m.id,
        m.display_name,
        m.description,
        m.context_window as u64,
        m.reasoning,
        m.tool_calls,
        use_word(m.use_case),
    )
}

/// Whether a value lists a model of which only the id is known.
pub open spec fn lists_id(v: Json, id: Seq<char>) -> bool {
    &&& has_only(v, set!["id"@, "object"@, "created"@, "owned_by"@, "curated"@])
    &&& at(v, "id"@) == Some(Json::Str(id))
    &&& at(v, "object"@) == Some(Json::Str("model"@))
    &&& at(v, "created"@) == Some(Json::Unsigned(0))
    &&& at(v, "owned_by"@) == Some(Json::Str("nvidia"@))
    &&& at(v, "curated"@) == Some(Json::Bool(false))
}

/// Whether `x` occurs in `ids` before `y` does.
pub open spec fn comes_first(ids: Seq<Seq<char>>, x: Seq<char>, y: Seq<char>) -> bool {
    exists|p: int|
        {
            &&& 0 <= p < ids.len()
            &&& #[trigger] ids[p] == x
            &&& forall|q: int| 0 <= q <= p ==> #[trigger] ids[q] != y
        }
}

/// The names in a list of models differ.
proof fn lemma_listing_names_differ()
    ensures
        "id"@ != "object"@,
        "id"@ != "created"@,
        "id"@ != "owned_by"@,
        "id"@ != "display_name"@,
        "id"@ != "description"@,
        "id"@ != "context_window"@,
        "id"@ != "reasoning"@,
        "id"@ != "tool_calls"@,
        "id"@ != "use_case"@,
        "id"@ != "curated"@,
        "id"@ != "data"@,
        "object"@ != "created"@,
        "object"@ != "owned_by"@,
        "object"@ != "display_name"@,
        "object"@ != "description"@,
        "object"@ != "context_window"@,
        "object"@ != "reasoning"@,
        "object"@ != "tool_calls"@,
        "object"@ != "use_case"@,
        "object"@ != "curated"@,
        "object"@ != "data"@,
        "created"@ != "owned_by"@,
        "created"@ != "display_name"@,
        "created"@ != "description"@,
        "created"@ != "context_window"@,
        "created"@ != "reasoning"@,
        "created"@ != "tool_calls"@,
        "created"@ != "use_case"@,
        "created"@ != "curated"@,
        "created"@ != "data"@,
        "owned_by"@ != "display_name"@,
        "owned_by"@ != "description"@,
        "owned_by"@ != "context_window"@,
        "owned_by"@ != "reasoning"@,
        "owned_by"@ != "tool_calls"@,
        "owned_by"@ != "use_case"@,
        "owned_by"@ != "curated"@,
        "owned_by"@ != "data"@,
        "display_name"@ != "description"@,
        "display_name"@ != "context_window"@,
        "display_name"@ != "reasoning"@,
        "display_name"@ != "tool_calls"@,
        "display_name"@ != "use_case"@,
        "display_name"@ != "curated"@,
        "display_name"@ != "data"@,
        "description"@ != "context_window"@,
        "description"@ != "reasoning"@,
        "description"@ != "tool_calls"@,
        "description"@ != "use_case"@,
        "description"@ != "curated"@,
        "description"@ != "data"@,
        "context_window"@ != "reasoning"@,
        "context_window"@ != "tool_calls"@,
        "context_window"@ != "use_case"@,
        "context_window"@ != "curated"@,
        "context_window"@ != "data"@,
        "reasoning"@ != "tool_calls"@,
        "reasoning"@ != "use_case"@,
        "reasoning"@ != "curated"@,
        "reasoning"@ != "data"@,
        "tool_calls"@ != "use_case"@,
        "tool_calls"@ != "curated"@,
        "tool_calls"@ != "data"@,
        "use_case"@ != "curated"@,
        "use_case"@ != "data"@,
        "curated"@ != "data"@,
{
    reveal_strlit("id");
    reveal_strlit("object");
    reveal_strlit("created");
    reveal_strlit("owned_by");
    reveal_strlit("display_name");
    reveal_strlit("description");
    reveal_strlit("context_window");
    reveal_strlit("reasoning");
    reveal_strlit("tool_calls");
    reveal_strlit("use_case");
    reveal_strlit("curated");
    reveal_strlit("data");
    assert("id"@.len() == 2);
    assert("object"@.len() == 6);
    assert("created"@.len() == 7);
    assert("owned_by"@.len() == 8);
    assert("display_name"@.len() == 12);
    assert("description"@.len() == 11);
    assert("context_window"@.len() == 14);
    assert("reasoning"@.len() == 9);
    assert("tool_calls"@.len() == 10);
    assert("use_case"@.len() == 8);
    assert("curated"@.len() == 7);
    assert("data"@.len() == 4);
    assert("created"@[1] == 'r' && "curated"@[1] == 'u');
    assert("owned_by"@[0] == 'o' && "use_case"@[0] == 'u');
}

proof fn lemma_curated_listing(m: CuratedEntry)
    ensures
        lists_model(curated_listing(m), m),
{
    lemma_listing_names_differ();
    assert(curated_listing(m)->Object_0.dom() =~= set![
        "id"@,
        "object"@,
        "created"@,
        "owned_by"@,
        "display_name"@,
        "description"@,
        "context_window"@,
        "reasoning"@,
        "tool_calls"@,
        "use_case"@,
        "curated"@,
    ]);
}

proof fn lemma_plain_listing(id: Seq<char>)
    ensures
        lists_id(plain_listing(id), id),
{
    lemma_listing_names_differ();
    assert(plain_listing(id)->Object_0.dom() =~= set![
        "id"@,
        "object"@,
        "created"@,
        "owned_by"@,
        "curated"@,
    ]);
}

proof fn lemma_other_ids_in_order(ids: Seq<Seq<char>>)
    ensures
        forall|j: int, k: int|
            0 <= j < k < other_ids(ids).len() ==> comes_first(
                ids,
                #[trigger] other_ids(ids)[j],
                #[trigger] other_ids(ids)[k],
            ),
        forall|k: int|
            0 <= k < other_ids(ids).len() ==> ids.contains(#[trigger] other_ids(ids)[k]),
    decreases ids.len(),
{
    let others = other_ids(ids);
    if ids.len() > 0 {
        let first = ids.drop_last();
        let id = ids.last();
        lemma_other_ids_in_order(first);
        let before = other_ids(first);
        assert forall|k: int| 0 <= k < others.len() implies ids.contains(
            #[trigger] others[k],
        ) by {
            if k < before.len() {
                assert(first.contains(before[k]));
                let p = choose|p: int| 0 <= p < first.len() && first[p] == before[k];
                assert(ids[p] == others[k]);
            } else {
                assert(ids[ids.len() - 1] == id);
            }
        }
        assert forall|j: int, k: int| 0 <= j < k < others.len() implies comes_first(
            ids,
            #[trigger] others[j],
            #[trigger] others[k],
        ) by {
            if k < before.len() {
                assert(comes_first(first, before[j], before[k]));
                let p = choose|p: int|
                    {
                        &&& 0 <= p < first.len()
                        &&& #[trigger] first[p] == before[j]
                        &&& forall|q: int| 0 <= q <= p ==> #[trigger] first[q] != before[k]
                    };
                assert(ids[p] == others[j]);
                assert forall|q: int| 0 <= q <= p implies #[trigger] ids[q] != others[k] by {
                    assert(first[q] == ids[q]);
                }
            } else {
                assert(first.contains(before[j]));
                let p = choose|p: int| 0 <= p < first.len() && first[p] == before[j];
                assert(ids[p] == others[j]);
                assert forall|q: int| 0 <= q <= p implies #[trigger] ids[q] != others[k] by {
                    assert(first[q] == ids[q]);
                    assert(first.contains(first[q]));
                }
            }
        }
    }
}

/// The list of models, whatever the upstream gave: first every model that is
/// known, in its place, with all that is known of it; then each other id that the
/// upstream gave, once, in the order in which they first came.
pub proof fn the_list_says_what_is_known(ids: Seq<Seq<char>>)
    ensures
        ({
            let list = models_list(ids);
            let data = array_at(list, "data"@)->0;
            let n = curated().len();
            &&& has_only(list, set!["object"@, "data"@])
            &&& str_at(list, "object"@) == Some("list"@)
            &&& array_at(list, "data"@) is Some
            &&& data.len() >= n
            &&& forall|k: int| 0 <= k < n ==> lists_model(#[trigger] data[k], curated()[k])
            &&& forall|k: int|
                n <= k < data.len() ==> {
                    let id = str_at(#[trigger] data[k], "id"@);
                    &&& id is Some
                    &&& lists_id(data[k], id->0)
                    &&& ids.contains(id->0)
                    &&& !curated_ids().contains(id->0)
                }
            &&& forall|x: Seq<char>| #[trigger]
                ids.contains(x) ==> exists|k: int|
                    0 <= k < data.len() && str_at(#[trigger] data[k], "id"@) == Some(x)
            &&& forall|j: int, k: int|
                n <= j < k < data.len() ==> comes_first(
                    ids,
                    str_at(#[trigger] data[j], "id"@)->0,
                    str_at(#[trigger] data[k], "id"@)->0,
                )
        }),
{
    lemma_listing_names_differ();
    let list = models_list(ids);
    let data = listings(ids);
    let n = curated().len();
    let others = other_ids(ids);
    assert(list->Object_0.dom() =~= set!["object"@, "data"@]);
    assert(array_at(list, "data"@) == Some(data));
    lemma_other_ids_in_order(ids);
    each_model_is_listed_once(ids);
    let all = listed_ids(ids);
    assert forall|k: int| 0 <= k < n implies lists_model(#[trigger] data[k], curated()[k]) by {
        lemma_curated_listing(curated()[k]);
    }
    assert forall|k: int| n <= k < data.len() implies {
        let id = str_at(#[trigger] data[k], "id"@);
        &&& id == Some(others[k - n])
        &&& lists_id(data[k], id->0)
        &&& ids.contains(id->0)
        &&& !curated_ids().contains(id->0)
    } by {
        lemma_plain_listing(others[k - n]);
        assert(data[k] == plain_listing(others[k - n]));
        if curated_ids().contains(others[k - n]) {
            let i = choose|i: int|
                0 <= i < curated_ids().len() && curated_ids()[i] == others[k - n];
            assert(all[i] == all[k]);
        }
    }
    assert forall|x: Seq<char>| #[trigger] ids.contains(x) implies exists|k: int|
        0 <= k < data.len() && str_at(#[trigger] data[k], "id"@) == Some(x) by {
        assert(all.contains(x));
        let k = choose|k: int| 0 <= k < all.len() && all[k] == x;
        assert(data[k].get("id"@) == Some(Json::Str(all[k])));
        assert(str_at(data[k], "id"@) == Some(x));
    }
    assert forall|j: int, k: int| n <= j < k < data.len() implies comes_first(
        ids,
        str_at(#[trigger] data[j], "id"@)->0,
        str_at(#[trigger] data[k], "id"@)->0,
    ) by {
        assert(comes_first(ids, others[j - n], others[k - n]));
    }
}

/// The models that lead every list, each with its name, what it is, how much it
/// can read, whether it reasons and whether it calls tools, and what it is good
/// for.
pub proof fn these_models_lead_every_list(ids: Seq<Seq<char>>)
    ensures
        ({
            let data = array_at(models_list(ids), "data"@)->0;
            &&& data.len() >= 12
            &&& lists(
                data[0],
                "qwen/qwen3-next-80b-a3b-instruct"@,
                "Qwen3-Next 80B (MoE)"@,
                "Best overall — fast MoE model with strong coding ability"@,
                262144,
                false,
                true,
                "coding"@,
            )
            &&& lists(
                data[1],
                "deepseek-ai/deepseek-v4-pro"@,
                "DeepSeek V4 Pro"@,
                "Excellent coder, slightly slower but very thorough"@,
                128000,
                false,
                true,
                "coding"@,
            )
            &&& lists(
                data[2],
                "meta/llama-3.3-70b-instruct"@,
                "Llama 3.3 70B"@,
                "Solid baseline instruct model"@,
                128000,
                false,
                true,
                "coding"@,
            )
            &&& lists(
                data[3],
                "qwen/qwen3.5-397b-a17b"@,
                "Qwen3.5 397B (MoE)"@,
                "Large MoE — high capability, higher latency"@,
                262144,
                false,
                true,
                "coding"@,
            )
            &&& lists(
                data[4],
                "nvidia/llama-3.3-nemotron-super-49b-v1.5"@,
                "Nemotron Super 49B v1.5"@,
                "NVIDIA reasoning model — slow but thinks deeply"@,
                128000,
                true,
                true,
                "reasoning"@,
            )
            &&& lists(
                data[5],
                "nvidia/llama-3.1-nemotron-ultra-253b-v1"@,
                "Nemotron Ultra 253B"@,
                "Massive reasoning model — for hardest problems"@,
                128000,
                true,
                true,
                "reasoning"@,
            )
            &&& lists(
                data[6],
                "nvidia/llama-3.1-nemotron-nano-8b-v1"@,
                "Nemotron Nano 8B"@,
                "Fast lightweight reasoning model"@,
                128000,
                true,
                true,
                "fast"@,
            )
            &&& lists(
                data[7],
                "mistralai/mistral-nemotron"@,
                "Mistral Nemotron"@,
                "Mistral + NVIDIA reasoning tuning"@,
                128000,
                true,
                true,
                "reasoning"@,
            )
            &&& lists(
                data[8],
                "meta/codellama-70b"@,
                "Code Llama 70B"@,
                "Meta's code-specialized Llama — pure code completion"@,
                16000,
                false,
                false,
                "specialty"@,
            )
            &&& lists(
                data[9],
                "ibm/granite-34b-code-instruct"@,
                "Granite 34B Code"@,
                "IBM's enterprise code model — solid for refactors"@,
                8000,
                false,
                false,
                "specialty"@,
            )
            &&& lists(
                data[10],
                "deepseek-ai/deepseek-coder-6.7b-instruct"@,
                "DeepSeek Coder 6.7B"@,
                "Fast small coder — great for quick edits"@,
                16000,
                false,
                false,
                "fast"@,
            )
            &&& lists(
                data[11],
                "google/codegemma-7b"@,
                "CodeGemma 7B"@,
                "Google's code model — fast, lightweight"@,
                8000,
                false,
                false,
                "fast"@,
            )
        }),
{
    the_list_says_what_is_known(ids);
    let data = array_at(models_list(ids), "data"@)->0;
    assert(curated().len() == 12);
    assert(lists_model(data[0], curated()[0]));
    assert(lists_model(data[1], curated()[1]));
    assert(lists_model(data[2], curated()[2]));
    assert(lists_model(data[3], curated()[3]));
    assert(lists_model(data[4], curated()[4]));
    assert(lists_model(data[5], curated()[5]));
    assert(lists_model(data[6], curated()[6]));
    assert(lists_model(data[7], curated()[7]));
    assert(lists_model(data[8], curated()[8]));
    assert(lists_model(data[9], curated()[9]));
    assert(lists_model(data[10], curated()[10]));
    assert(lists_model(data[11], curated()[11]));
}

} // verus!
