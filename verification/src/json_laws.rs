//! How JSON is read in statements about it: the members of a value, and what a
//! text says.

use crate::json::json_text;
use crate::json::Json;
use vstd::prelude::*;

verus! {

/// The member of a value under `key`.
pub open spec fn at(j: Json, key: Seq<char>) -> Option<Json> {
    match j {
        Json::Object(m) => if m.contains_key(key) {
            Some(m[key])
        } else {
            None
        },
        _ => None,
    }
}

/// The string that a value has under `key`.
pub open spec fn str_at(j: Json, key: Seq<char>) -> Option<Seq<char>> {
    match at(j, key) {
        Some(Json::Str(s)) => Some(s),
        _ => None,
    }
}

/// The array that a value has under `key`.
pub open spec fn array_at(j: Json, key: Seq<char>) -> Option<Seq<Json>> {
    match at(j, key) {
        Some(Json::Array(a)) => Some(a),
        _ => None,
    }
}

/// The string that a value has under `key`, `default` where it has none.
pub open spec fn str_or(j: Json, key: Seq<char>, default: Seq<char>) -> Seq<char> {
    match str_at(j, key) {
        Some(s) => s,
        None => default,
    }
}

/// Whether a value is an object with these names and no others.
pub open spec fn has_only(j: Json, names: Set<Seq<char>>) -> bool {
    j is Object && j->Object_0.dom() == names
}

/// Texts, one after another.
pub open spec fn put_together(texts: Seq<Seq<char>>) -> Seq<char>
    decreases texts.len(),
{
    if texts.len() == 0 {
        Seq::empty()
    } else {
        put_together(texts.drop_last()) + texts.last()
    }
}

/// Filtering and mapping at once keeps what is kept, in its order.
pub proof fn lemma_filter_map_keeps<A, B>(
    s: Seq<A>,
    f: spec_fn(A) -> Option<B>,
    keep: spec_fn(A) -> bool,
)
    requires
        forall|x: A| #[trigger] keep(x) <==> f(x) is Some,
    ensures
        s.filter_map(f).len() == s.filter(keep).len(),
        forall|k: int|
            #![trigger s.filter(keep)[k]]
            #![trigger s.filter_map(f)[k]]
            0 <= k < s.filter(keep).len() ==> f(s.filter(keep)[k]) == Some(s.filter_map(f)[k])
                && keep(s.filter(keep)[k]),
    decreases s.len(),
{
    reveal(Seq::filter);
    if s.len() > 0 {
        let rest = s.drop_last();
        lemma_filter_map_keeps(rest, f, keep);
        let a = s.filter(keep);
        let b = s.filter_map(f);
        assert(keep(s.last()) <==> f(s.last()) is Some);
        assert forall|k: int|
            #![trigger a[k]]
            #![trigger b[k]]
            0 <= k < a.len() implies f(a[k]) == Some(b[k]) && keep(a[k]) by {
            if k < rest.filter(keep).len() {
                assert(a[k] == rest.filter(keep)[k]);
                assert(b[k] == rest.filter_map(f)[k]);
            }
        }
    }
}

// ---------------------------------------------------------------------------
// What a text says

/// Whether a text is written in JSON as it is, between quotes.
pub open spec fn is_plain(s: Seq<char>) -> bool {
    forall|i: int|
        0 <= i < s.len() ==> 0x20 <= (#[trigger] s[i]) as u32 && s[i] != '"' && s[i] != '\\'
}

/// A name and the text of the value under it.
pub struct Field {
    pub name: Seq<char>,
    pub value: Seq<char>,
}

/// The text of the fields of an object, with commas between them.
pub open spec fn fields_text(fields: Seq<Field>) -> Seq<char>
    decreases fields.len(),
{
    if fields.len() == 0 {
        Seq::empty()
    } else {
        let before = fields_text(fields.drop_last());
        let f = fields.last();
        (if fields.len() == 1 {
            before
        } else {
            before.push(',')
        }) + (seq!['"'] + f.name + seq!['"', ':'] + f.value)
    }
}

/// The names of fields.
pub open spec fn field_names(fields: Seq<Field>) -> Seq<Seq<char>> {
    fields.map_values(|f: Field| f.name)
}

/// Whether `text` is JSON for an object with these fields, in this order.
pub open spec fn is_object_text(text: Seq<char>, fields: Seq<Field>) -> bool {
    &&& text == seq!['{'] + fields_text(fields) + seq!['}']
    &&& field_names(fields).no_duplicates()
    &&& forall|i: int| 0 <= i < fields.len() ==> is_plain((#[trigger] fields[i]).name)
}

/// Whether `text`, read as JSON, is the value `j`: it is what is printed for `j`,
/// the word for null, a string that needs no escapes between quotes, or an object
/// whose fields are read in the same way, to the depth `depth`.
pub open spec fn says(text: Seq<char>, j: Json, depth: nat) -> bool
    decreases depth,
{
    ||| text == json_text(j)
    ||| j is Null && text == seq!['n', 'u', 'l', 'l']
    ||| j is Str && is_plain(j->Str_0) && text == seq!['"'] + j->Str_0 + seq!['"']
    ||| depth > 0 && j is Object && exists|fields: Seq<Field>|
        {
            &&& #[trigger] is_object_text(text, fields)
            &&& j->Object_0.dom() == field_names(fields).to_set()
            &&& forall|i: int|
                0 <= i < fields.len() ==> says(
                    (#[trigger] fields[i]).value,
                    j->Object_0[fields[i].name],
                    (depth - 1) as nat,
                )
        }
}

/// What is read to a depth is read to a greater one.
pub proof fn lemma_says_deeper(text: Seq<char>, j: Json, depth: nat)
    requires
        says(text, j, depth),
    ensures
        says(text, j, depth + 1),
    decreases depth,
{
    if text == json_text(j) || j is Null && text == seq!['n', 'u', 'l', 'l'] || j is Str
        && is_plain(j->Str_0) && text == seq!['"'] + j->Str_0 + seq!['"'] {
    } else {
        let fields = choose|fields: Seq<Field>|
            {
                &&& #[trigger] is_object_text(text, fields)
                &&& j->Object_0.dom() == field_names(fields).to_set()
                &&& forall|i: int|
                    0 <= i < fields.len() ==> says(
                        (#[trigger] fields[i]).value,
                        j->Object_0[fields[i].name],
                        (depth - 1) as nat,
                    )
            };
        assert forall|i: int| 0 <= i < fields.len() implies says(
            (#[trigger] fields[i]).value,
            j->Object_0[fields[i].name],
            depth,
        ) by {
            lemma_says_deeper(fields[i].value, j->Object_0[fields[i].name], (depth - 1) as nat);
        }
        assert(is_object_text(text, fields));
    }
}

} // verus!
