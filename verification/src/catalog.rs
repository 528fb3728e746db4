//! The catalog of models: those that are known, with their names and limits,
//! and those that the upstream lists.

use crate::json::array_value;
use crate::json::bool_value;
use crate::json::json;
use crate::json::json_seq;
use crate::json::lemma_json_seq_push;
use crate::json::object_value;
use crate::json::put;
use crate::json::text_value;
use crate::json::u64_value;
use crate::json::Json;
use crate::text::str_eq;
use crate::text::texts;
use serde_json::Map as JsonMap;
use serde_json::Value;
use vstd::prelude::*;

verus! {

/// A model that is known.
#[derive(Debug, Clone)]
pub struct CuratedModel {
    pub id: String,
    pub display_name: String,
    pub description: String,
    pub context_window: u32,
    pub reasoning: bool,
    pub tool_calls: bool,
    pub use_case: ModelUseCase,
}

/// What a model is good for.
#[derive(Debug, Clone, Copy, PartialEq, Eq, Structural)]
pub enum ModelUseCase {
    Coding,
    Reasoning,
    Fast,
    Specialty,
}

impl ModelUseCase {
    /// How a use is written.
    pub open spec fn text(self) -> Seq<char> {
        match self {
            ModelUseCase::Coding => "coding"@,
            ModelUseCase::Reasoning => "reasoning"@,
            ModelUseCase::Fast => "fast"@,
            ModelUseCase::Specialty => "specialty"@,
        }
    }

    /// Writes a use.
    pub fn name(self) -> (r: &'static str)
        ensures
            r@ == self.text(),
    {
        match self {
            ModelUseCase::Coding => "coding",
            ModelUseCase::Reasoning => "reasoning",
            ModelUseCase::Fast => "fast",
            ModelUseCase::Specialty => "specialty",
        }
    }
}

/// A model that is known.
pub struct CuratedEntry {
    pub id: Seq<char>,
    pub display_name: Seq<char>,
    pub description: Seq<char>,
    pub context_window: u32,
    pub reasoning: bool,
    pub tool_calls: bool,
    pub use_case: ModelUseCase,
}

impl View for CuratedModel {
    type V = CuratedEntry;

    open spec fn view(&self) -> CuratedEntry {
        CuratedEntry {
            id: self.id@,
            display_name: self.display_name@,
            description: self.description@,
            context_window: self.context_window,
            reasoning: self.reasoning,
            tool_calls: self.tool_calls,
            use_case: self.use_case,
        }
    }
}

/// What models are.
pub open spec fn entries_of(models: Seq<CuratedModel>) -> Seq<CuratedEntry> {
    models.map_values(|m: CuratedModel| m@)
}

/// The models that are known.
pub open spec fn curated() -> Seq<CuratedEntry> {
    seq![
        CuratedEntry {
            id: "qwen/qwen3-next-80b-a3b-instruct"@,
            display_name: "Qwen3-Next 80B (MoE)"@,
            description: "Best overall — fast MoE model with strong coding ability"@,
            context_window: 262144,
            reasoning: false,
            tool_calls: true,
            use_case: ModelUseCase::Coding,
        },
        CuratedEntry {
            id: "deepseek-ai/deepseek-v4-pro"@,
            display_name: "DeepSeek V4 Pro"@,
            description: "Excellent coder, slightly slower but very thorough"@,
            context_window: 128000,
            reasoning: false,
            tool_calls: true,
            use_case: ModelUseCase::Coding,
        },
        CuratedEntry {
            id: "meta/llama-3.3-70b-instruct"@,
            display_name: "Llama 3.3 70B"@,
            description: "Solid baseline instruct model"@,
            context_window: 128000,
            reasoning: false,
            tool_calls: true,
            use_case: ModelUseCase::Coding,
        },
        CuratedEntry {
            id: "qwen/qwen3.5-397b-a17b"@,
            display_name: "Qwen3.5 397B (MoE)"@,
            description: "Large MoE — high capability, higher latency"@,
            context_window: 262144,
            reasoning: false,
            tool_calls: true,
            use_case: ModelUseCase::Coding,
        },
        CuratedEntry {
            id: "nvidia/llama-3.3-nemotron-super-49b-v1.5"@,
            display_name: "Nemotron Super 49B v1.5"@,
            description: "NVIDIA reasoning model — slow but thinks deeply"@,
            context_window: 128000,
            reasoning: true,
            tool_calls: true,
            use_case: ModelUseCase::Reasoning,
        },
        CuratedEntry {
            id: "nvidia/llama-3.1-nemotron-ultra-253b-v1"@,
            display_name: "Nemotron Ultra 253B"@,
            description: "Massive reasoning model — for hardest problems"@,
            context_window: 128000,
            reasoning: true,
            tool_calls: true,
            use_case: ModelUseCase::Reasoning,
        },
        CuratedEntry {
            id: "nvidia/llama-3.1-nemotron-nano-8b-v1"@,
            display_name: "Nemotron Nano 8B"@,
            description: "Fast lightweight reasoning model"@,
            context_window: 128000,
            reasoning: true,
            tool_calls: true,
            use_case: ModelUseCase::Fast,
        },
        CuratedEntry {
            id: "mistralai/mistral-nemotron"@,
            display_name: "Mistral Nemotron"@,
            description: "Mistral + NVIDIA reasoning tuning"@,
            context_window: 128000,
            reasoning: true,
            tool_calls: true,
            use_case: ModelUseCase::Reasoning,
        },
        CuratedEntry {
            id: "meta/codellama-70b"@,
            display_name: "Code Llama 70B"@,
            description: "Meta's code-specialized Llama — pure code completion"@,
            context_window: 16000,
            reasoning: false,
            tool_calls: false,
            use_case: ModelUseCase::Specialty,
        },
        CuratedEntry {
            id: "ibm/granite-34b-code-instruct"@,
            display_name: "Granite 34B Code"@,
            description: "IBM's enterprise code model — solid for refactors"@,
            context_window: 8000,
            reasoning: false,
            tool_calls: false,
            use_case: ModelUseCase::Specialty,
        },
        CuratedEntry {
            id: "deepseek-ai/deepseek-coder-6.7b-instruct"@,
            display_name: "DeepSeek Coder 6.7B"@,
            description: "Fast small coder — great for quick edits"@,
            context_window: 16000,
            reasoning: false,
            tool_calls: false,
            use_case: ModelUseCase::Fast,
        },
        CuratedEntry {
            id: "google/codegemma-7b"@,
            display_name: "CodeGemma 7B"@,
            description: "Google's code model — fast, lightweight"@,
            context_window: 8000,
            reasoning: false,
            tool_calls: false,
            use_case: ModelUseCase::Fast,
        },
    ]
}

/// The ids of the models that are known.
pub open spec fn curated_ids() -> Seq<Seq<char>> {
    curated().map_values(|m: CuratedEntry| m.id)
}

/// The models that are known.
pub fn curated_models() -> (r: Vec<CuratedModel>)
    ensures
        entries_of(r@) == curated(),
{
    let mut models: Vec<CuratedModel> = Vec::new();
    models.push(
        CuratedModel {
            id: "qwen/qwen3-next-80b-a3b-instruct".to_string(),
            display_name: "Qwen3-Next 80B (MoE)".to_string(),
            description: "Best overall — fast MoE model with strong coding ability".to_string(),
            context_window: 262144,
            reasoning: false,
            tool_calls: true,
            use_case: ModelUseCase::Coding,
        },
    );
    models.push(
        CuratedModel {
            id: "deepseek-ai/deepseek-v4-pro".to_string(),
            display_name: "DeepSeek V4 Pro".to_string(),
            description: "Excellent coder, slightly slower but very thorough".to_string(),
            context_window: 128000,
            reasoning: false,
            tool_calls: true,
            use_case: ModelUseCase::Coding,
        },
    );
    models.push(
        CuratedModel {
            id: "meta/llama-3.3-70b-instruct".to_string(),
            display_name: "Llama 3.3 70B".to_string(),
            description: "Solid baseline instruct model".to_string(),
            context_window: 128000,
            reasoning: false,
            tool_calls: true,
            use_case: ModelUseCase::Coding,
        },
    );
    models.push(
        CuratedModel {
            id: "qwen/qwen3.5-397b-a17b".to_string(),
            display_name: "Qwen3.5 397B (MoE)".to_string(),
            description: "Large MoE — high capability, higher latency".to_string(),
            context_window: 262144,
            reasoning: false,
            tool_calls: true,
            use_case: ModelUseCase::Coding,
        },
    );
    models.push(
        CuratedModel {
            id: "nvidia/llama-3.3-nemotron-super-49b-v1.5".to_string(),
            display_name: "Nemotron Super 49B v1.5".to_string(),
            description: "NVIDIA reasoning model — slow but thinks deeply".to_string(),
            context_window: 128000,
            reasoning: true,
            tool_calls: true,
            use_case: ModelUseCase::Reasoning,
        },
    );
    models.push(
        CuratedModel {
            id: "nvidia/llama-3.1-nemotron-ultra-253b-v1".to_string(),
            display_name: "Nemotron Ultra 253B".to_string(),
            description: "Massive reasoning model — for hardest problems".to_string(),
            context_window: 128000,
            reasoning: true,
            tool_calls: true,
            use_case: ModelUseCase::Reasoning,
        },
    );
    models.push(
        CuratedModel {
            id: "nvidia/llama-3.1-nemotron-nano-8b-v1".to_string(),
            display_name: "Nemotron Nano 8B".to_string(),
            description: "Fast lightweight reasoning model".to_string(),
            context_window: 128000,
            reasoning: true,
            tool_calls: true,
            use_case: ModelUseCase::Fast,
        },
    );
    models.push(
        CuratedModel {
            id: "mistralai/mistral-nemotron".to_string(),
            display_name: "Mistral Nemotron".to_string(),
            description: "Mistral + NVIDIA reasoning tuning".to_string(),
            context_window: 128000,
            reasoning: true,
            tool_calls: true,
            use_case: ModelUseCase::Reasoning,
        },
    );
    models.push(
        CuratedModel {
            id: "meta/codellama-70b".to_string(),
            display_name: "Code Llama 70B".to_string(),
            description: "Meta's code-specialized Llama — pure code completion".to_string(),
            context_window: 16000,
            reasoning: false,
            tool_calls: false,
            use_case: ModelUseCase::Specialty,
        },
    );
    models.push(
        CuratedModel {
            id: "ibm/granite-34b-code-instruct".to_string(),
            display_name: "Granite 34B Code".to_string(),
            description: "IBM's enterprise code model — solid for refactors".to_string(),
            context_window: 8000,
            reasoning: false,
            tool_calls: false,
            use_case: ModelUseCase::Specialty,
        },
    );
    models.push(
        CuratedModel {
            id: "deepseek-ai/deepseek-coder-6.7b-instruct".to_string(),
            display_name: "DeepSeek Coder 6.7B".to_string(),
            description: "Fast small coder — great for quick edits".to_string(),
            context_window: 16000,
            reasoning: false,
            tool_calls: false,
            use_case: ModelUseCase::Fast,
        },
    );
    models.push(
        CuratedModel {
            id: "google/codegemma-7b".to_string(),
            display_name: "CodeGemma 7B".to_string(),
            description: "Google's code model — fast, lightweight".to_string(),
            context_window: 8000,
            reasoning: false,
            tool_calls: false,
            use_case: ModelUseCase::Fast,
        },
    );
    proof {
        assert(entries_of(models@) =~= curated());
    }
    models
}

/// No two of the models that are known have the same id.
pub proof fn curated_ids_are_unique()
    ensures
        curated_ids().no_duplicates(),
{
    reveal_strlit("qwen/qwen3-next-80b-a3b-instruct");
    reveal_strlit("deepseek-ai/deepseek-v4-pro");
    reveal_strlit("meta/llama-3.3-70b-instruct");
    reveal_strlit("qwen/qwen3.5-397b-a17b");
    reveal_strlit("nvidia/llama-3.3-nemotron-super-49b-v1.5");
    reveal_strlit("nvidia/llama-3.1-nemotron-ultra-253b-v1");
    reveal_strlit("nvidia/llama-3.1-nemotron-nano-8b-v1");
    reveal_strlit("mistralai/mistral-nemotron");
    reveal_strlit("meta/codellama-70b");
    reveal_strlit("ibm/granite-34b-code-instruct");
    reveal_strlit("deepseek-ai/deepseek-coder-6.7b-instruct");
    reveal_strlit("google/codegemma-7b");
    assert("qwen/qwen3-next-80b-a3b-instruct"@.len() == 32);
    assert("deepseek-ai/deepseek-v4-pro"@.len() == 27);
    assert("meta/llama-3.3-70b-instruct"@.len() == 27);
    assert("qwen/qwen3.5-397b-a17b"@.len() == 22);
    assert("nvidia/llama-3.3-nemotron-super-49b-v1.5"@.len() == 40);
    assert("nvidia/llama-3.1-nemotron-ultra-253b-v1"@.len() == 39);
    assert("nvidia/llama-3.1-nemotron-nano-8b-v1"@.len() == 36);
    assert("mistralai/mistral-nemotron"@.len() == 26);
    assert("meta/codellama-70b"@.len() == 18);
    assert("ibm/granite-34b-code-instruct"@.len() == 29);
    assert("deepseek-ai/deepseek-coder-6.7b-instruct"@.len() == 40);
    assert("google/codegemma-7b"@.len() == 19);
    assert("deepseek-ai/deepseek-v4-pro"@[0] == 'd');
    assert("meta/llama-3.3-70b-instruct"@[0] == 'm');
    assert("nvidia/llama-3.3-nemotron-super-49b-v1.5"@[0] == 'n');
    assert("deepseek-ai/deepseek-coder-6.7b-instruct"@[0] == 'd');
    let ids = curated_ids();
    assert(ids.len() == 12);
    assert forall|i: int, j: int| 0 <= i < ids.len() && 0 <= j < ids.len() && i != j implies ids[i]
        != ids[j] by {}
}

/// The listing of a model that is known.
pub open spec fn curated_listing(m: CuratedEntry) -> Json {
    Json::Object(
        map![
            "id"@ => Json::Str(m.id),
            "object"@ => Json::Str("model"@),
            "created"@ => Json::Unsigned(0),
            "owned_by"@ => Json::Str("nvidia"@),
            "display_name"@ => Json::Str(m.display_name),
            "description"@ => Json::Str(m.description),
            "context_window"@ => Json::Unsigned(m.context_window as u64),
            "reasoning"@ => Json::Bool(m.reasoning),
            "tool_calls"@ => Json::Bool(m.tool_calls),
            "use_case"@ => Json::Str(m.use_case.text()),
            "curated"@ => Json::Bool(true),
        ],
    )
}

/// The listing of a model of which only the id is known.
pub open spec fn plain_listing(id: Seq<char>) -> Json {
    Json::Object(
        map![
            "id"@ => Json::Str(id),
            "object"@ => Json::Str("model"@),
            "created"@ => Json::Unsigned(0),
            "owned_by"@ => Json::Str("nvidia"@),
            "curated"@ => Json::Bool(false),
        ],
    )
}

/// The ids that are not among the models that are known, each where it occurs
/// first.
pub open spec fn other_ids(ids: Seq<Seq<char>>) -> Seq<Seq<char>>
    decreases ids.len(),
{
    if ids.len() == 0 {
        Seq::empty()
    } else {
        let before = other_ids(ids.drop_last());
        if curated_ids().contains(ids.last()) || ids.drop_last().contains(ids.last()) {
            before
        } else {
            before.push(ids.last())
        }
    }
}

/// The listings for the ids that the upstream gave: the models that are known,
/// then the others.
pub open spec fn listings(ids: Seq<Seq<char>>) -> Seq<Json> {
    curated().map_values(|m: CuratedEntry| curated_listing(m)) + other_ids(ids).map_values(
        |id: Seq<char>| plain_listing(id),
    )
}

/// The list of models for the ids that the upstream gave.
pub open spec fn models_list(ids: Seq<Seq<char>>) -> Json {
    Json::Object(
        map!["object"@ => Json::Str("list"@), "data"@ => Json::Array(listings(ids))],
    )
}

/// Makes the listing of a model that is known.
fn list_curated(m: &CuratedModel) -> (r: Value)
    ensures
        json(r) == curated_listing(m@),
{
    let mut o = JsonMap::new();
    put(&mut o, "id", text_value(m.id.as_str()));
    put(&mut o, "object", text_value("model"));
    put(&mut o, "created", u64_value(0));
    put(&mut o, "owned_by", text_value("nvidia"));
    put(&mut o, "display_name", text_value(m.display_name.as_str()));
    put(&mut o, "description", text_value(m.description.as_str()));
    put(&mut o, "context_window", u64_value(m.context_window as u64));
    put(&mut o, "reasoning", bool_value(m.reasoning));
    put(&mut o, "tool_calls", bool_value(m.tool_calls));
    put(&mut o, "use_case", text_value(m.use_case.name()));
    put(&mut o, "curated", bool_value(true));
    object_value(o)
}

/// Makes the listing of a model of which only the id is known.
fn list_plain(id: &str) -> (r: Value)
    ensures
        json(r) == plain_listing(id@),
{
    let mut o = JsonMap::new();
    put(&mut o, "id", text_value(id));
    put(&mut o, "object", text_value("model"));
    put(&mut o, "created", u64_value(0));
    put(&mut o, "owned_by", text_value("nvidia"));
    put(&mut o, "curated", bool_value(false));
    object_value(o)
}

/// Tells whether one of `seen` is `id`.
fn is_among(seen: &Vec<String>, id: &str) -> (r: bool)
    ensures
        r == texts(seen@).contains(id@),
{
    let mut i: usize = 0;
    while i < seen.len()
        invariant
            i <= seen.len(),
            forall|j: int| 0 <= j < i ==> #[trigger] seen@[j]@ != id@,
        decreases seen.len() - i,
    {
        if str_eq(seen[i].as_str(), id) {
            proof {
                assert(texts(seen@)[i as int] == id@);
            }
            return true;
        }
        i = i + 1;
    }
    proof {
        assert forall|j: int| 0 <= j < texts(seen@).len() implies texts(seen@)[j] != id@ by {
            assert(texts(seen@)[j] == seen@[j]@);
        }
    }
    false
}

/// Makes the list of models for the ids that the upstream gave: the models that
/// are known, then each other id once.
pub fn build_models_response(upstream_ids: &[String]) -> (r: Value)
    ensures
        json(r) == models_list(texts(upstream_ids@)),
{
    let models = curated_models();
    let mut seen: Vec<String> = Vec::new();
    let mut data: Vec<Value> = Vec::new();
    let ghost known = curated().map_values(|m: CuratedEntry| curated_listing(m));
    proof {
        assert(json_seq(data@) =~= known.take(0));
        assert(texts(seen@) =~= curated_ids().take(0));
    }
    let mut i: usize = 0;
    while i < models.len()
        invariant
            i <= models.len(),
            entries_of(models@) == curated(),
            known == curated().map_values(|m: CuratedEntry| curated_listing(m)),
            json_seq(data@) == known.take(i as int),
            texts(seen@) == curated_ids().take(i as int),
        decreases models.len() - i,
    {
        let ghost listed = data@;
        let ghost before = texts(seen@);
        let item = list_curated(&models[i]);
        data.push(item);
        seen.push(models[i].id.clone());
        proof {
            assert(curated()[i as int] == entries_of(models@)[i as int]);
            lemma_json_seq_push(listed, item);
            assert(known.take(i + 1) =~= known.take(i as int).push(known[i as int]));
            assert(texts(seen@) =~= before.push(models@[i as int].id@));
            assert(curated_ids().take(i + 1) =~= curated_ids().take(i as int).push(
                curated_ids()[i as int],
            ));
        }
        i = i + 1;
    }
    let ghost ids = texts(upstream_ids@);
    let ghost plain = |id: Seq<char>| plain_listing(id);
    proof {
        assert(known.take(known.len() as int) =~= known);
        assert(curated_ids().take(curated_ids().len() as int) =~= curated_ids());
        assert(ids.take(0) =~= Seq::<Seq<char>>::empty());
        assert(json_seq(data@) =~= known + other_ids(ids.take(0)).map_values(plain));
    }
    let mut k: usize = 0;
    while k < upstream_ids.len()
        invariant
            k <= upstream_ids.len(),
            ids == texts(upstream_ids@),
            plain == (|id: Seq<char>| plain_listing(id)),
            json_seq(data@) == known + other_ids(ids.take(k as int)).map_values(plain),
            forall|x: Seq<char>| #[trigger]
                texts(seen@).contains(x) <==> (curated_ids().contains(x) || ids.take(
                    k as int,
                ).contains(x)),
        decreases upstream_ids.len() - k,
    {
        let id = &upstream_ids[k];
        let ghost next = ids.take(k + 1);
        let ghost listed = data@;
        let ghost before = texts(seen@);
        proof {
            assert(next.drop_last() =~= ids.take(k as int));
            assert(next.last() == id@);
            assert(next =~= ids.take(k as int).push(id@));
        }
        if !is_among(&seen, id.as_str()) {
            let item = list_plain(id.as_str());
            data.push(item);
            seen.push(id.clone());
            proof {
                lemma_json_seq_push(listed, item);
                let others = other_ids(ids.take(k as int));
                assert(others.push(id@).map_values(plain) =~= others.map_values(plain).push(
                    plain_listing(id@),
                ));
                assert(json_seq(data@) =~= known + other_ids(next).map_values(plain));
                assert(texts(seen@) =~= before.push(id@));
                lemma_contains_push(before, id@);
            }
        }
        proof {
            lemma_contains_push(ids.take(k as int), id@);
        }
        k = k + 1;
    }
    proof {
        assert(ids.take(ids.len() as int) =~= ids);
    }
    let mut list = JsonMap::new();
    put(&mut list, "object", text_value("list"));
    put(&mut list, "data", array_value(data));
    object_value(list)
}

proof fn lemma_contains_push(s: Seq<Seq<char>>, x: Seq<char>)
    ensures
        forall|y: Seq<char>| #[trigger] s.push(x).contains(y) <==> (s.contains(y) || y == x),
{
    assert forall|y: Seq<char>| #[trigger] s.push(x).contains(y) <==> (s.contains(y) || y
        == x) by {
        if s.contains(y) {
            let i = choose|i: int| 0 <= i < s.len() && s[i] == y;
            assert(s.push(x)[i] == y);
        }
        if y == x {
            assert(s.push(x)[s.len() as int] == y);
        }
        if s.push(x).contains(y) && y != x {
            let i = choose|i: int| 0 <= i < s.push(x).len() && s.push(x)[i] == y;
            assert(s[i] == y);
        }
    }
}

/// The ids of the listings, in their order.
pub open spec fn listed_ids(ids: Seq<Seq<char>>) -> Seq<Seq<char>> {
    curated_ids() + other_ids(ids)
}

proof fn lemma_other_ids(ids: Seq<Seq<char>>)
    ensures
        other_ids(ids).no_duplicates(),
        forall|x: Seq<char>| #[trigger]
            other_ids(ids).contains(x) <==> (ids.contains(x) && !curated_ids().contains(x)),
    decreases ids.len(),
{
    if ids.len() > 0 {
        let first = ids.drop_last();
        let id = ids.last();
        lemma_other_ids(first);
        assert(ids =~= first.push(id));
        lemma_contains_push(first, id);
        lemma_contains_push(other_ids(first), id);
        let before = other_ids(first);
        if !curated_ids().contains(id) && !first.contains(id) {
            assert(!before.contains(id));
            assert forall|i: int, j: int|
                0 <= i < before.push(id).len() && 0 <= j < before.push(id).len() && i
                    != j implies before.push(id)[i] != before.push(id)[j] by {
                if i < before.len() && j < before.len() {
                } else if i < before.len() {
                    assert(before.contains(before[i]));
                } else if j < before.len() {
                    assert(before.contains(before[j]));
                }
            }
        }
    }
}

/// The list has each model once: every model that is known, and every model that
/// the upstream gave, and no others.
pub proof fn each_model_is_listed_once(ids: Seq<Seq<char>>)
    ensures
        listed_ids(ids).no_duplicates(),
        forall|x: Seq<char>| #[trigger]
            listed_ids(ids).contains(x) <==> (curated_ids().contains(x) || ids.contains(x)),
        listings(ids).len() == listed_ids(ids).len(),
        forall|i: int|
            0 <= i < listings(ids).len() ==> (#[trigger] listings(ids)[i]).get("id"@) == Some(
                Json::Str(listed_ids(ids)[i]),
            ),
{
    let a = curated_ids();
    let b = other_ids(ids);
    let all = listed_ids(ids);
    curated_ids_are_unique();
    lemma_other_ids(ids);
    assert forall|i: int, j: int|
        0 <= i < all.len() && 0 <= j < all.len() && i != j implies all[i] != all[j] by {
        if i < a.len() && j >= a.len() {
            assert(b.contains(b[j - a.len()]));
            assert(a.contains(a[i]));
        } else if j < a.len() && i >= a.len() {
            assert(b.contains(b[i - a.len()]));
            assert(a.contains(a[j]));
        } else if i < a.len() {
            assert(a[i] != a[j]);
        } else {
            assert(b[i - a.len()] != b[j - a.len()]);
        }
    }
    assert forall|x: Seq<char>| #[trigger] all.contains(x) <==> (a.contains(x) || ids.contains(
        x,
    )) by {
        if all.contains(x) {
            let i = choose|i: int| 0 <= i < all.len() && all[i] == x;
            if i < a.len() {
                assert(a[i] == x);
            } else {
                assert(b[i - a.len()] == x);
                assert(b.contains(x));
            }
        }
        if a.contains(x) {
            let i = choose|i: int| 0 <= i < a.len() && a[i] == x;
            assert(all[i] == x);
        } else if ids.contains(x) {
            assert(b.contains(x));
            let i = choose|i: int| 0 <= i < b.len() && b[i] == x;
            assert(all[a.len() + i] == x);
        }
    }
    reveal_strlit("id");
    reveal_strlit("object");
    reveal_strlit("created");
    reveal_strlit("owned_by");
    reveal_strlit("display_name");
    reveal_strlit("description");
    reveal_strlit("context_window");
    reveal_strlit("reasoning");
    reveal_strlit("tool_calls");
    reveal_strlit("use_case");
    reveal_strlit("curated");
    assert("id"@.len() == 2);
    assert("object"@.len() == 6 && "created"@.len() == 7 && "owned_by"@.len() == 8);
    assert("display_name"@.len() == 12 && "description"@.len() == 11);
    assert("context_window"@.len() == 14 && "reasoning"@.len() == 9);
    assert("tool_calls"@.len() == 10 && "use_case"@.len() == 8 && "curated"@.len() == 7);
    assert forall|i: int| 0 <= i < listings(ids).len() implies (#[trigger] listings(ids)[i]).get(
        "id"@,
    ) == Some(Json::Str(all[i])) by {
        if i < a.len() {
            assert(listings(ids)[i] == curated_listing(curated()[i]));
        } else {
            assert(listings(ids)[i] == plain_listing(b[i - a.len()]));
        }
    }
}

} // verus!
