//! What is written for an event is the JSON of that event.

use crate::json::Json;
use crate::json_laws::field_names;
use crate::json_laws::fields_text;
use crate::json_laws::is_object_text;
use crate::json_laws::is_plain;
use crate::json_laws::lemma_says_deeper;
use crate::json_laws::says;
use crate::json_laws::Field;
use crate::translate::events::completed_members;
use crate::translate::events::completed_text;
use crate::translate::events::created_members;
use crate::translate::events::created_text;
use crate::translate::events::event_members;
use crate::translate::events::event_text;
use crate::translate::events::failed_members;
use crate::translate::events::failed_text;
use crate::translate::events::member_text;
use crate::translate::events::members_text;
use crate::translate::events::object_text;
use crate::translate::events::usage_members;
use crate::translate::events::usage_text;
use crate::translate::events::CompletedModel;
use crate::translate::events::CreatedModel;
use crate::translate::events::EventModel;
use crate::translate::events::FailedModel;
use crate::translate::events::Member;
use crate::translate::events::UsageSummary;
use vstd::prelude::*;

verus! {

/// The JSON of a token count.
pub open spec fn usage_json(usage: Option<UsageSummary>) -> Json {
    match usage {
        Some(u) => Json::Object(
            map![
                "input_tokens"@ => Json::Unsigned(u.input_tokens),
                "output_tokens"@ => Json::Unsigned(u.output_tokens),
                "total_tokens"@ => Json::Unsigned(u.total_tokens),
            ],
        ),
        None => Json::Null,
    }
}

/// The JSON of what a created response holds.
pub open spec fn created_json(r: CreatedModel) -> Json {
    Json::Object(
        map![
            "id"@ => Json::Str(r.id),
            "object"@ => Json::Str(r.object),
            "created_at"@ => Json::Unsigned(r.created_at),
            "status"@ => Json::Str(r.status),
            "model"@ => Json::Str(r.model),
            "output"@ => Json::Array(r.output),
        ],
    )
}

/// The JSON of what a completed response holds.
pub open spec fn completed_json(r: CompletedModel) -> Json {
    Json::Object(
        map![
            "id"@ => Json::Str(r.id),
            "object"@ => Json::Str(r.object),
            "created_at"@ => Json::Unsigned(r.created_at),
            "status"@ => Json::Str(r.status),
            "model"@ => Json::Str(r.model),
            "output"@ => Json::Array(r.output),
            "usage"@ => usage_json(r.usage),
        ],
    )
}

/// The JSON of what a failed response holds.
pub open spec fn failed_json(r: FailedModel) -> Json {
    Json::Object(
        map![
            "id"@ => Json::Str(r.id),
            "object"@ => Json::Str(r.object),
            "created_at"@ => Json::Unsigned(r.created_at),
            "status"@ => Json::Str(r.status),
            "error"@ => r.error,
            "output"@ => Json::Array(r.output),
        ],
    )
}

/// The JSON of an event.
pub open spec fn event_json(e: EventModel) -> Json {
    Json::Object(
        match e {
            EventModel::Created { sequence_number, response } => map![
                "type"@ => Json::Str("response.created"@),
                "sequence_number"@ => Json::Unsigned(sequence_number),
                "response"@ => created_json(response),
            ],
            EventModel::OutputItemAdded { sequence_number, output_index, item } => map![
                "type"@ => Json::Str("response.output_item.added"@),
                "sequence_number"@ => Json::Unsigned(sequence_number),
                "output_index"@ => Json::Unsigned(output_index as u64),
                "item"@ => item,
            ],
            EventModel::OutputTextDelta {
                sequence_number,
                item_id,
                output_index,
                content_index,
                delta,
            } => map![
                "type"@ => Json::Str("response.output_text.delta"@),
                "sequence_number"@ => Json::Unsigned(sequence_number),
                "item_id"@ => Json::Str(item_id),
                "output_index"@ => Json::Unsigned(output_index as u64),
                "content_index"@ => Json::Unsigned(content_index as u64),
                "delta"@ => Json::Str(delta),
            ],
            EventModel::ReasoningTextDelta {
                sequence_number,
                item_id,
                output_index,
                content_index,
                delta,
            } => map![
                "type"@ => Json::Str("response.reasoning_text.delta"@),
                "sequence_number"@ => Json::Unsigned(sequence_number),
                "item_id"@ => Json::Str(item_id),
                "output_index"@ => Json::Unsigned(output_index as u64),
                "content_index"@ => Json::Unsigned(content_index as u64),
                "delta"@ => Json::Str(delta),
            ],
            EventModel::FunctionCallArgumentsDelta {
                sequence_number,
                item_id,
                output_index,
                delta,
            } => map![
                "type"@ => Json::Str("response.function_call_arguments.delta"@),
                "sequence_number"@ => Json::Unsigned(sequence_number),
                "item_id"@ => Json::Str(item_id),
                "output_index"@ => Json::Unsigned(output_index as u64),
                "delta"@ => Json::Str(delta),
            ],
            EventModel::OutputItemDone { sequence_number, output_index, item } => map![
                "type"@ => Json::Str("response.output_item.done"@),
                "sequence_number"@ => Json::Unsigned(sequence_number),
                "output_index"@ => Json::Unsigned(output_index as u64),
                "item"@ => item,
            ],
            EventModel::Completed { sequence_number, response } => map![
                "type"@ => Json::Str("response.completed"@),
                "sequence_number"@ => Json::Unsigned(sequence_number),
                "response"@ => completed_json(response),
            ],
            EventModel::Failed { sequence_number, response } => map![
                "type"@ => Json::Str("response.failed"@),
                "sequence_number"@ => Json::Unsigned(sequence_number),
                "response"@ => failed_json(response),
            ],
        },
    )
}

/// Members as fields.
pub open spec fn as_fields(members: Seq<Member>) -> Seq<Field> {
    members.map_values(|m: Member| Field { name: m.name, value: m.text })
}

proof fn lemma_members_as_fields(members: Seq<Member>)
    ensures
        members_text(members) == fields_text(as_fields(members)),
    decreases members.len(),
{
    reveal_strlit("\"");
    reveal_strlit("\":");
    reveal_strlit(",");
    let fields = as_fields(members);
    if members.len() > 0 {
        lemma_members_as_fields(members.drop_last());
        assert(fields.drop_last() =~= as_fields(members.drop_last()));
        let m = members.last();
        let f = fields.last();
        assert(member_text(m) =~= seq!['"'] + f.name + seq!['"', ':'] + f.value);
        assert(members_text(members) =~= fields_text(fields));
    } else {
        assert(members_text(members) =~= fields_text(fields));
    }
}

/// Whether members write the entries of an object, each to the depth `depth`.
spec fn write_entries(members: Seq<Member>, m: Map<Seq<char>, Json>, depth: nat) -> bool {
    forall|i: int|
        0 <= i < members.len() ==> is_plain((#[trigger] members[i]).name) && m.contains_key(
            members[i].name,
        ) && says(members[i].text, m[members[i].name], depth)
}

/// An object whose members are written one by one says the object.
proof fn lemma_object_says(members: Seq<Member>, m: Map<Seq<char>, Json>, depth: nat)
    requires
        write_entries(members, m, depth),
        forall|i: int, j: int|
            0 <= i < j < members.len() ==> (#[trigger] members[i]).name != (
            #[trigger] members[j]).name,
        forall|k: Seq<char>| #[trigger]
            m.contains_key(k) ==> exists|i: int|
                0 <= i < members.len() && (#[trigger] members[i]).name == k,
    ensures
        says(object_text(members), Json::Object(m), depth + 1),
{
    reveal_strlit("{");
    reveal_strlit("}");
    let fields = as_fields(members);
    let text = object_text(members);
    let names = field_names(fields);
    lemma_members_as_fields(members);
    assert(text =~= seq!['{'] + fields_text(fields) + seq!['}']);
    assert forall|i: int, j: int|
        0 <= i < names.len() && 0 <= j < names.len() && i != j implies names[i] != names[j] by {
        if i < j {
            assert(members[i].name != members[j].name);
        } else {
            assert(members[j].name != members[i].name);
        }
    }
    assert forall|i: int| 0 <= i < fields.len() implies is_plain((#[trigger] fields[i]).name)
        && says(fields[i].value, m[fields[i].name], depth) by {
        assert(is_plain(members[i].name));
    }
    assert forall|k: Seq<char>| #[trigger] names.to_set().contains(k) <==> m.dom().contains(
        k,
    ) by {
        if names.to_set().contains(k) {
            let i = choose|i: int| 0 <= i < names.len() && names[i] == k;
            assert(m.contains_key(members[i].name));
        }
        if m.dom().contains(k) {
            assert(m.contains_key(k));
            let i = choose|i: int| 0 <= i < members.len() && (#[trigger] members[i]).name == k;
            assert(names[i] == k);
        }
    }
    assert(m.dom() =~= names.to_set());
    assert(is_object_text(text, fields));
    assert((depth + 1 - 1) as nat == depth);
}

/// The names in an event differ.
pub proof fn lemma_event_names_differ()
    ensures
        "type"@ != "sequence_number"@,
        "type"@ != "response"@,
        "type"@ != "output_index"@,
        "type"@ != "content_index"@,
        "type"@ != "item"@,
        "type"@ != "item_id"@,
        "type"@ != "delta"@,
        "sequence_number"@ != "response"@,
        "sequence_number"@ != "output_index"@,
        "sequence_number"@ != "content_index"@,
        "sequence_number"@ != "item"@,
        "sequence_number"@ != "item_id"@,
        "sequence_number"@ != "delta"@,
        "response"@ != "output_index"@,
        "response"@ != "content_index"@,
        "response"@ != "item"@,
        "response"@ != "item_id"@,
        "response"@ != "delta"@,
        "output_index"@ != "content_index"@,
        "output_index"@ != "item"@,
        "output_index"@ != "item_id"@,
        "output_index"@ != "delta"@,
        "content_index"@ != "item"@,
        "content_index"@ != "item_id"@,
        "content_index"@ != "delta"@,
        "item"@ != "item_id"@,
        "item"@ != "delta"@,
        "item_id"@ != "delta"@,
{
    reveal_strlit("type");
    reveal_strlit("sequence_number");
    reveal_strlit("response");
    reveal_strlit("output_index");
    reveal_strlit("content_index");
    reveal_strlit("item");
    reveal_strlit("item_id");
    reveal_strlit("delta");
    assert("type"@.len() == 4);
    assert("sequence_number"@.len() == 15);
    assert("response"@.len() == 8);
    assert("output_index"@.len() == 12);
    assert("content_index"@.len() == 13);
    assert("item"@.len() == 4);
    assert("item_id"@.len() == 7);
    assert("delta"@.len() == 5);
    assert("type"@[0] == 't' && "item"@[0] == 'i');
}

/// The names in a response differ.
pub proof fn lemma_response_names_differ()
    ensures
        "id"@ != "object"@,
        "id"@ != "created_at"@,
        "id"@ != "status"@,
        "id"@ != "model"@,
        "id"@ != "output"@,
        "id"@ != "usage"@,
        "id"@ != "error"@,
        "object"@ != "created_at"@,
        "object"@ != "status"@,
        "object"@ != "model"@,
        "object"@ != "output"@,
        "object"@ != "usage"@,
        "object"@ != "error"@,
        "created_at"@ != "status"@,
        "created_at"@ != "model"@,
        "created_at"@ != "output"@,
        "created_at"@ != "usage"@,
        "created_at"@ != "error"@,
        "status"@ != "model"@,
        "status"@ != "output"@,
        "status"@ != "usage"@,
        "status"@ != "error"@,
        "model"@ != "output"@,
        "model"@ != "usage"@,
        "model"@ != "error"@,
        "output"@ != "usage"@,
        "output"@ != "error"@,
        "usage"@ != "error"@,
{
    reveal_strlit("id");
    reveal_strlit("object");
    reveal_strlit("created_at");
    reveal_strlit("status");
    reveal_strlit("model");
    reveal_strlit("output");
    reveal_strlit("usage");
    reveal_strlit("error");
    assert("id"@.len() == 2);
    assert("object"@.len() == 6);
    assert("created_at"@.len() == 10);
    assert("status"@.len() == 6);
    assert("model"@.len() == 5);
    assert("output"@.len() == 6);
    assert("usage"@.len() == 5);
    assert("error"@.len() == 5);
    assert("object"@[0] == 'o' && "status"@[0] == 's');
    assert("object"@[1] == 'b' && "output"@[1] == 'u');
    assert("status"@[0] == 's' && "output"@[0] == 'o');
    assert("model"@[0] == 'm' && "usage"@[0] == 'u');
    assert("model"@[0] == 'm' && "error"@[0] == 'e');
    assert("usage"@[0] == 'u' && "error"@[0] == 'e');
}

/// The names in a token count differ.
proof fn lemma_count_names_differ()
    ensures
        "input_tokens"@ != "output_tokens"@,
        "input_tokens"@ != "total_tokens"@,
        "output_tokens"@ != "total_tokens"@,
{
    reveal_strlit("input_tokens");
    reveal_strlit("output_tokens");
    reveal_strlit("total_tokens");
    assert("input_tokens"@.len() == 12);
    assert("output_tokens"@.len() == 13);
    assert("total_tokens"@.len() == 12);
    assert("input_tokens"@[0] == 'i' && "total_tokens"@[0] == 't');
}

/// The names are written as they are.
proof fn lemma_names_are_plain()
    ensures
        is_plain("type"@),
        is_plain("sequence_number"@),
        is_plain("response"@),
        is_plain("output_index"@),
        is_plain("content_index"@),
        is_plain("item"@),
        is_plain("item_id"@),
        is_plain("delta"@),
        is_plain("id"@),
        is_plain("object"@),
        is_plain("created_at"@),
        is_plain("status"@),
        is_plain("model"@),
        is_plain("output"@),
        is_plain("usage"@),
        is_plain("error"@),
        is_plain("input_tokens"@),
        is_plain("output_tokens"@),
        is_plain("total_tokens"@),
{
    reveal_strlit("type");
    reveal_strlit("sequence_number");
    reveal_strlit("response");
    reveal_strlit("output_index");
    reveal_strlit("content_index");
    reveal_strlit("item");
    reveal_strlit("item_id");
    reveal_strlit("delta");
    reveal_strlit("id");
    reveal_strlit("object");
    reveal_strlit("created_at");
    reveal_strlit("status");
    reveal_strlit("model");
    reveal_strlit("output");
    reveal_strlit("usage");
    reveal_strlit("error");
    reveal_strlit("input_tokens");
    reveal_strlit("output_tokens");
    reveal_strlit("total_tokens");
}

/// The types of events are written as they are.
proof fn lemma_types_are_plain()
    ensures
        says("\"response.created\""@, Json::Str("response.created"@), 0),
        says("\"response.output_item.added\""@, Json::Str("response.output_item.added"@), 0),
        says("\"response.output_text.delta\""@, Json::Str("response.output_text.delta"@), 0),
        says("\"response.reasoning_text.delta\""@, Json::Str("response.reasoning_text.delta"@), 0),
        says("\"response.function_call_arguments.delta\""@, Json::Str("response.function_call_arguments.delta"@), 0),
        says("\"response.output_item.done\""@, Json::Str("response.output_item.done"@), 0),
        says("\"response.completed\""@, Json::Str("response.completed"@), 0),
        says("\"response.failed\""@, Json::Str("response.failed"@), 0),
{
    reveal_strlit("response.created");
    reveal_strlit("\"response.created\"");
    assert("\"response.created\""@ =~= seq!['"'] + "response.created"@ + seq!['"']);
    reveal_strlit("response.output_item.added");
    reveal_strlit("\"response.output_item.added\"");
    assert("\"response.output_item.added\""@ =~= seq!['"'] + "response.output_item.added"@ + seq!['"']);
    reveal_strlit("response.output_text.delta");
    reveal_strlit("\"response.output_text.delta\"");
    assert("\"response.output_text.delta\""@ =~= seq!['"'] + "response.output_text.delta"@ + seq!['"']);
    reveal_strlit("response.reasoning_text.delta");
    reveal_strlit("\"response.reasoning_text.delta\"");
    assert("\"response.reasoning_text.delta\""@ =~= seq!['"'] + "response.reasoning_text.delta"@ + seq!['"']);
    reveal_strlit("response.function_call_arguments.delta");
    reveal_strlit("\"response.function_call_arguments.delta\"");
    assert("\"response.function_call_arguments.delta\""@ =~= seq!['"'] + "response.function_call_arguments.delta"@ + seq!['"']);
    reveal_strlit("response.output_item.done");
    reveal_strlit("\"response.output_item.done\"");
    assert("\"response.output_item.done\""@ =~= seq!['"'] + "response.output_item.done"@ + seq!['"']);
    reveal_strlit("response.completed");
    reveal_strlit("\"response.completed\"");
    assert("\"response.completed\""@ =~= seq!['"'] + "response.completed"@ + seq!['"']);
    reveal_strlit("response.failed");
    reveal_strlit("\"response.failed\"");
    assert("\"response.failed\""@ =~= seq!['"'] + "response.failed"@ + seq!['"']);
}

/// What is read to a depth is read to any greater one.
proof fn lemma_says_from(text: Seq<char>, j: Json, depth: nat, more: nat)
    requires
        says(text, j, depth),
    ensures
        says(text, j, depth + more),
    decreases more,
{
    if more > 0 {
        lemma_says_from(text, j, depth, (more - 1) as nat);
        lemma_says_deeper(text, j, (depth + more - 1) as nat);
    }
}

proof fn lemma_usage_says(u: Option<UsageSummary>)
    ensures
        says(usage_text(u), usage_json(u), 1),
{
    lemma_names_are_plain();
    match u {
        Some(u) => {
            lemma_count_names_differ();
            lemma_object_says(usage_members(u), usage_json(Some(u))->Object_0, 0);
        },
        None => {
            reveal_strlit("null");
            assert("null"@ =~= seq!['n', 'u', 'l', 'l']);
        },
    }
}

proof fn lemma_created_says(r: CreatedModel)
    ensures
        says(created_text(r), created_json(r), 1),
{
    lemma_names_are_plain();
    lemma_response_names_differ();
    let ms = created_members(r);
    let m = created_json(r)->Object_0;
    lemma_six(ms, m, 0);
}

proof fn lemma_failed_says(r: FailedModel)
    ensures
        says(failed_text(r), failed_json(r), 1),
{
    lemma_names_are_plain();
    lemma_response_names_differ();
    let ms = failed_members(r);
    let m = failed_json(r)->Object_0;
    lemma_six(ms, m, 0);
}

/// An object of six members.
proof fn lemma_six(ms: Seq<Member>, m: Map<Seq<char>, Json>, depth: nat)
    requires
        ms.len() == 6,
        write_entries(ms, m, depth),
        m.dom() == set![
            ms[0].name,
            ms[1].name,
            ms[2].name,
            ms[3].name,
            ms[4].name,
            ms[5].name,
        ],
        forall|i: int, j: int|
            0 <= i < j < ms.len() ==> (#[trigger] ms[i]).name != (#[trigger] ms[j]).name,
    ensures
        says(object_text(ms), Json::Object(m), depth + 1),
{
    lemma_object_says(ms, m, depth);
}

proof fn lemma_completed_says(r: CompletedModel)
    ensures
        says(completed_text(r), completed_json(r), 2),
{
    lemma_names_are_plain();
    lemma_response_names_differ();
    lemma_usage_says(r.usage);
    let ms = completed_members(r);
    let m = completed_json(r)->Object_0;
    lemma_object_says(ms, m, 1);
}

/// What is written for an event, read as JSON, is the JSON of that event.
pub proof fn an_event_is_written_as_its_json(e: EventModel)
    ensures
        says(event_text(e), event_json(e), 3),
{
    lemma_names_are_plain();
    lemma_event_names_differ();
    lemma_types_are_plain();
    let ms = event_members(e);
    let m = event_json(e)->Object_0;
    lemma_says_from(ms[0].text, m["type"@], 0, 2);
    match e {
        EventModel::Created { sequence_number, response } => {
            lemma_created_says(response);
            lemma_says_deeper(ms[2].text, m["response"@], 1);
        },
        EventModel::Completed { sequence_number, response } => {
            lemma_completed_says(response);
        },
        EventModel::Failed { sequence_number, response } => {
            lemma_failed_says(response);
            lemma_says_deeper(ms[2].text, m["response"@], 1);
        },
        _ => {},
    }
    assert(write_entries(ms, m, 2));
    lemma_object_says(ms, m, 2);
}

} // verus!
