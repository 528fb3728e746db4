//! What the tools and the settings of a translated request say.

use crate::json::Json;
use crate::json_laws::array_at;
use crate::json_laws::at;
use crate::json_laws::has_only;
use crate::json_laws::lemma_filter_map_keeps;
use crate::json_laws::str_at;
use crate::json_laws::str_or;
use crate::translate::request::chat_request;
use crate::translate::request::chat_tool;
use crate::translate::request::chat_tool_choice;
use crate::translate::request::chat_tools;
use crate::translate::request::incoming_model;
use crate::translate::request_laws::lemma_field_names;
use vstd::prelude::*;

verus! {

/// Where a tool says what its function is: in a nested object where it has one,
/// else in itself.
pub open spec fn definition_in(t: Json) -> Json {
    match at(t, "function"@) {
        Some(Json::Object(f)) => Json::Object(f),
        _ => t,
    }
}

/// Whether a tool is a function with a name. A tool that does not say its type is
/// a function.
pub open spec fn is_named_function(t: Json) -> bool {
    &&& t is Object
    &&& str_at(t, "type"@) is Some ==> str_at(t, "type"@) == Some("function"@)
    &&& str_at(definition_in(t), "name"@) is Some
}

/// Whether `v` is a tool as the chat API takes it, for the function of `t`: with
/// its name, with its parameters, none where it has none, and with its
/// description where it has one.
pub open spec fn is_tool_of(v: Json, t: Json) -> bool {
    let d = definition_in(t);
    let f = at(v, "function"@)->0;
    &&& has_only(v, set!["type"@, "function"@])
    &&& str_at(v, "type"@) == Some("function"@)
    &&& has_only(
        f,
        if str_at(d, "description"@) is Some {
            set!["name"@, "parameters"@, "description"@]
        } else {
            set!["name"@, "parameters"@]
        },
    )
    &&& str_at(f, "name"@) == str_at(d, "name"@)
    &&& str_at(f, "description"@) == str_at(d, "description"@)
    &&& at(f, "parameters"@) == Some(
        match at(d, "parameters"@) {
            Some(p) => p,
            None => Json::Object(Map::empty()),
        },
    )
}

/// The tools of a request that are functions with a name.
pub open spec fn named_functions(request: Json) -> Seq<Json> {
    match array_at(request, "tools"@) {
        Some(tools) => tools.filter(|t: Json| is_named_function(t)),
        None => Seq::empty(),
    }
}

/// The names of tools, as the chat API has them.
pub open spec fn chat_tool_names(tools: Seq<Json>) -> Seq<Option<Seq<char>>> {
    tools.map_values(|v: Json| str_at(at(v, "function"@)->0, "name"@))
}

/// The names in a tool differ.
proof fn lemma_tool_names_differ()
    ensures
        "type"@ != "function"@,
        "type"@ != "name"@,
        "type"@ != "parameters"@,
        "type"@ != "description"@,
        "function"@ != "name"@,
        "function"@ != "parameters"@,
        "function"@ != "description"@,
        "name"@ != "parameters"@,
        "name"@ != "description"@,
        "parameters"@ != "description"@,
{
    reveal_strlit("type");
    reveal_strlit("function");
    reveal_strlit("name");
    reveal_strlit("parameters");
    reveal_strlit("description");
    assert("type"@.len() == 4);
    assert("function"@.len() == 8);
    assert("name"@.len() == 4);
    assert("parameters"@.len() == 10);
    assert("description"@.len() == 11);
    assert("type"@[0] == 't' && "name"@[0] == 'n');
}

proof fn lemma_tool_says(t: Json, v: Json)
    requires
        chat_tool(t) == Some(v),
    ensures
        is_tool_of(v, t),
{
    lemma_tool_names_differ();
    let d = definition_in(t);
    let f = at(v, "function"@)->0;
    assert(v->Object_0.dom() =~= set!["type"@, "function"@]);
    if str_at(d, "description"@) is Some {
        assert(f->Object_0.dom() =~= set!["name"@, "parameters"@, "description"@]);
    } else {
        assert(f->Object_0.dom() =~= set!["name"@, "parameters"@]);
    }
}

proof fn lemma_chat_tools_say(request: Map<Seq<char>, Json>)
    ensures
        ({
            let kept = named_functions(Json::Object(request));
            let tools = chat_tools(crate::json::lookup(request, "tools"@));
            &&& tools.len() == kept.len()
            &&& forall|k: int|
                0 <= k < kept.len() ==> is_tool_of(#[trigger] tools[k], kept[k])
                    && is_named_function(kept[k])
        }),
{
    lemma_tool_names_differ();
    match array_at(Json::Object(request), "tools"@) {
        Some(a) => {
            let f = |t: Json| chat_tool(t);
            let keep = |t: Json| is_named_function(t);
            assert forall|t: Json| #[trigger] keep(t) <==> f(t) is Some by {}
            lemma_filter_map_keeps(a, f, keep);
            let kept = a.filter(keep);
            let tools = chat_tools(crate::json::lookup(request, "tools"@));
            assert forall|k: int| 0 <= k < kept.len() implies is_tool_of(
                #[trigger] tools[k],
                kept[k],
            ) && is_named_function(kept[k]) by {
                assert(f(kept[k]) == Some(a.filter_map(f)[k]));
                assert(keep(kept[k]));
                lemma_tool_says(kept[k], tools[k]);
            }
        },
        None => {},
    }
}

/// Every tool of a request that is a function with a name comes through, once and
/// in its place, and no other does: the names of the tools of the chat request
/// are those of the named functions, in their order. Without one the chat request
/// has no tools.
pub proof fn named_functions_come_through(
    request: Map<Seq<char>, Json>,
    backend_model: Seq<char>,
    enable_thinking: bool,
)
    ensures
        ({
            let r = Json::Object(request);
            let chat = Json::Object(chat_request(request, backend_model, enable_thinking));
            let kept = named_functions(r);
            let tools = array_at(chat, "tools"@)->0;
            &&& kept.len() == 0 ==> at(chat, "tools"@) is None
            &&& kept.len() > 0 ==> {
                &&& array_at(chat, "tools"@) is Some
                &&& tools.len() == kept.len()
                &&& forall|k: int|
                    0 <= k < kept.len() ==> is_tool_of(#[trigger] tools[k], kept[k])
                &&& chat_tool_names(tools) == kept.map_values(
                    |t: Json| str_at(definition_in(t), "name"@),
                )
            }
        }),
{
    lemma_field_names();
    lemma_chat_tools_say(request);
    let r = Json::Object(request);
    let kept = named_functions(r);
    let tools = chat_tools(crate::json::lookup(request, "tools"@));
    let names = kept.map_values(|t: Json| str_at(definition_in(t), "name"@));
    assert forall|k: int| 0 <= k < kept.len() implies #[trigger] chat_tool_names(tools)[k]
        == names[k] by {
        assert(is_tool_of(tools[k], kept[k]));
    }
    assert(chat_tool_names(tools) =~= names);
}

/// Whether `c` is the choice of a tool that the chat API takes for `choice`, if
/// it takes one: a word as it is, a function by its name.
pub open spec fn is_choice_of(c: Option<Json>, choice: Option<Json>) -> bool {
    match choice {
        Some(Json::Str(s)) => c == Some(Json::Str(s)),
        Some(Json::Object(o)) => if str_at(Json::Object(o), "type"@) == Some("function"@) {
            let name = str_at(Json::Object(o), "name"@);
            let f = at(c->0, "function"@)->0;
            &&& c is Some
            &&& has_only(c->0, set!["type"@, "function"@])
            &&& str_at(c->0, "type"@) == Some("function"@)
            &&& has_only(
                f,
                if name is Some {
                    set!["name"@]
                } else {
                    Set::empty()
                },
            )
            &&& str_at(f, "name"@) == name
        } else {
            c is None
        },
        _ => c is None,
    }
}

/// The choice of a tool and the word on parallel calls come through where there
/// are tools, and only there.
pub proof fn tool_settings_come_through(
    request: Map<Seq<char>, Json>,
    backend_model: Seq<char>,
    enable_thinking: bool,
)
    ensures
        ({
            let r = Json::Object(request);
            let chat = Json::Object(chat_request(request, backend_model, enable_thinking));
            &&& named_functions(r).len() > 0 ==> {
                &&& is_choice_of(at(chat, "tool_choice"@), at(r, "tool_choice"@))
                &&& at(chat, "parallel_tool_calls"@) == at(r, "parallel_tool_calls"@)
            }
            &&& named_functions(r).len() == 0 ==> {
                &&& at(chat, "tool_choice"@) is None
                &&& at(chat, "parallel_tool_calls"@) is None
            }
        }),
{
    lemma_field_names();
    lemma_tool_names_differ();
    lemma_chat_tools_say(request);
    let r = Json::Object(request);
    let choice = at(r, "tool_choice"@);
    let c = chat_tool_choice(choice);
    match choice {
        Some(Json::Object(o)) => {
            if str_at(Json::Object(o), "type"@) == Some("function"@) {
                let f = at(c->0, "function"@)->0;
                assert(c->0->Object_0.dom() =~= set!["type"@, "function"@]);
                if str_at(Json::Object(o), "name"@) is Some {
                    assert(f->Object_0.dom() =~= set!["name"@]);
                } else {
                    assert(f->Object_0.dom() =~= Set::<Seq<char>>::empty());
                }
            }
        },
        _ => {},
    }
    assert(is_choice_of(c, choice));
}

/// The other settings come through: each sampling parameter as it is, the limit
/// on the tokens under the name that the chat API has for it, that of the
/// Responses API first; and a model is told to think where that was asked for.
pub proof fn settings_come_through(
    request: Map<Seq<char>, Json>,
    backend_model: Seq<char>,
    enable_thinking: bool,
)
    ensures
        ({
            let r = Json::Object(request);
            let chat = Json::Object(chat_request(request, backend_model, enable_thinking));
            let kwargs = at(chat, "chat_template_kwargs"@);
            &&& at(chat, "model"@) == Some(Json::Str(backend_model))
            &&& at(chat, "stream"@) == Some(Json::Bool(true))
            &&& at(chat, "temperature"@) == at(r, "temperature"@)
            &&& at(chat, "top_p"@) == at(r, "top_p"@)
            &&& at(chat, "stop"@) == at(r, "stop"@)
            &&& at(chat, "user"@) == at(r, "user"@)
            &&& at(r, "max_output_tokens"@) is Some ==> at(chat, "max_tokens"@) == at(
                r,
                "max_output_tokens"@,
            )
            &&& at(r, "max_output_tokens"@) is None ==> at(chat, "max_tokens"@) == at(
                r,
                "max_tokens"@,
            )
            &&& !enable_thinking ==> kwargs is None
            &&& enable_thinking ==> {
                &&& kwargs is Some
                &&& has_only(kwargs->0, set!["enable_thinking"@])
                &&& at(kwargs->0, "enable_thinking"@) == Some(Json::Bool(true))
            }
        }),
{
    lemma_field_names();
    let chat = Json::Object(chat_request(request, backend_model, enable_thinking));
    if enable_thinking {
        let kwargs = at(chat, "chat_template_kwargs"@);
        assert(kwargs->0->Object_0.dom() =~= set!["enable_thinking"@]);
    }
}

/// The model that an answer carries is the one that the client named.
pub proof fn the_model_is_the_one_named(request: Map<Seq<char>, Json>)
    ensures
        incoming_model(Json::Object(request)) == str_or(
            Json::Object(request),
            "model"@,
            "unknown"@,
        ),
{
}

} // verus!
