//! JSON, as a tree: what a service answered, and what stands in a meeting's folder.

use crate::text::{chars_of, same_chars};
use vstd::prelude::*;

verus! {

/// A value of a parsed text. Numbers and objects carry how they are written out.
#[derive(Debug)]
pub enum Json {
    Null,
    Bool(bool),
    Number(String),
    Text(String),
    Array(Vec<Json>),
    Object(Vec<(String, Json)>, String),
}

/// The parser's own value, carried from the parser to the tree.
#[verifier::external_type_specification]
#[verifier::external_body]
pub struct ExJsonValue(serde_json::Value);

/// What a value of the parser holds, as a tree: one node for each value in it.
pub uninterp spec fn json_tree(value: serde_json::Value) -> Json;

/// The tree that `serde_json` reads from a text; nothing where the text is not JSON.
pub uninterp spec fn parsed_json(text: Seq<char>) -> Option<Json>;

/// How `serde_json` writes a tree out over several lines; nothing where it cannot.
pub uninterp spec fn pretty_json(tree: Json) -> Option<Seq<char>>;

/// The member of an object with this name: the first one.
pub open spec fn member_of(members: Seq<(String, Json)>, name: Seq<char>, from: int) -> Option<Json>
    decreases members.len() - from,
{
    if 0 <= from < members.len() {
        if members[from].0@ == name {
            Some(members[from].1)
        } else {
            member_of(members, name, from + 1)
        }
    } else {
        None
    }
}

/// What an object holds under a name. Nothing else holds anything.
pub open spec fn field_of(tree: Json, name: Seq<char>) -> Option<Json> {
    match tree {
        Json::Object(members, _) => member_of(members@, name, 0),
        _ => None,
    }
}

/// A field that holds this text.
pub open spec fn is_text(field: Option<Json>, text: Seq<char>) -> bool {
    field matches Some(Json::Text(held)) && held@ == text
}

/// The value that a text stands for.
///
/// Calls `serde_json::from_str`. Claimed: what the value holds depends on the text alone.
/// Which texts are JSON, and what each of them holds, is left unsaid.
#[verifier::external_body]
pub(crate) fn parse_value(text: &str) -> (value: Option<serde_json::Value>)
    ensures
        match value {
            Some(parsed) => parsed_json(text@) == Some(json_tree(parsed)),
            None => parsed_json(text@) is None,
        },
{
    serde_json::from_str(text).ok()
}

/// What a value of the parser holds, as a tree.
///
/// Opens `serde_json::Value` by its variants, and writes numbers and objects out with its
/// `to_string`. The members of an object come in the order in which the parser keeps them,
/// each name once. Claimed: the tree depends on the value alone.
#[verifier::external_body]
fn tree_of(value: serde_json::Value) -> (tree: Json)
    ensures
        tree == json_tree(value),
{
    let written = value.to_string();
    match value {
        serde_json::Value::Null => Json::Null,
        serde_json::Value::Bool(flag) => Json::Bool(flag),
        serde_json::Value::Number(_) => Json::Number(written),
        serde_json::Value::String(text) => Json::Text(text),
        serde_json::Value::Array(items) => Json::Array(items.into_iter().map(tree_of).collect()),
        serde_json::Value::Object(members) => Json::Object(
            members.into_iter().map(|(name, member)| (name, tree_of(member))).collect(),
            written,
        ),
    }
}

/// A value as it is written over several lines.
///
/// Calls `serde_json::to_string_pretty`. Claimed: the text depends on what the value holds
/// alone. How it is laid out is left unsaid.
#[verifier::external_body]
pub(crate) fn pretty(value: &serde_json::Value) -> (text: Option<String>)
    ensures
        match text {
            Some(written) => pretty_json(json_tree(*value)) == Some(written@),
            None => pretty_json(json_tree(*value)) is None,
        },
{
    serde_json::to_string_pretty(value).ok()
}

/// A value that is a text.
///
/// Makes a `serde_json::Value::String`. Claimed: it holds the text.
#[verifier::external_body]
fn text_value(text: &str) -> (value: serde_json::Value)
    ensures
        is_text(Some(json_tree(value)), text@),
{
    serde_json::Value::String(text.to_owned())
}

/// A value that is an object without fields.
///
/// Makes a `serde_json::Value::Object` of `serde_json::Map::new`. Claimed: it is an object and
/// holds nothing under any name.
#[verifier::external_body]
pub(crate) fn empty_object() -> (value: serde_json::Value)
    ensures
        json_tree(value) is Object,
        forall|name: Seq<char>| #[trigger] field_of(json_tree(value), name) is None,
{
    serde_json::Value::Object(serde_json::Map::new())
}

/// Gives a field of an object a value.
///
/// Calls `as_object_mut` of `serde_json::Value` and `insert` of `serde_json::Map`. Claimed: an
/// object stays one, holds the value under the name, and holds under every other name what it
/// held; anything else stays as it is.
#[verifier::external_body]
pub(crate) fn put_field(value: &mut serde_json::Value, name: &str, field: serde_json::Value)
    ensures
        !(json_tree(*old(value)) is Object) ==> json_tree(*final(value)) == json_tree(*old(value)),
        json_tree(*old(value)) is Object ==> {
            &&& json_tree(*final(value)) is Object
            &&& field_of(json_tree(*final(value)), name@) == Some(json_tree(field))
            &&& forall|other: Seq<char>|
                other != name@ ==> #[trigger] field_of(json_tree(*final(value)), other) == field_of(
                    json_tree(*old(value)),
                    other,
                )
        },
{
    if let Some(fields) = value.as_object_mut() {
        fields.insert(name.to_owned(), field);
    }
}

/// Takes a field of an object away.
///
/// Calls `as_object_mut` of `serde_json::Value` and `remove` of `serde_json::Map`. Claimed: an
/// object stays one, holds nothing under the name, and holds under every other name what it
/// held; anything else stays as it is.
#[verifier::external_body]
pub(crate) fn take_field(value: &mut serde_json::Value, name: &str)
    ensures
        !(json_tree(*old(value)) is Object) ==> json_tree(*final(value)) == json_tree(*old(value)),
        json_tree(*old(value)) is Object ==> {
            &&& json_tree(*final(value)) is Object
            &&& field_of(json_tree(*final(value)), name@) is None
            &&& forall|other: Seq<char>|
                other != name@ ==> #[trigger] field_of(json_tree(*final(value)), other) == field_of(
                    json_tree(*old(value)),
                    other,
                )
        },
{
    if let Some(fields) = value.as_object_mut() {
        fields.remove(name);
    }
}

/// Gives a field of an object a text.
pub(crate) fn put_text(value: &mut serde_json::Value, name: &str, text: &str)
    ensures
        !(json_tree(*old(value)) is Object) ==> json_tree(*final(value)) == json_tree(*old(value)),
        json_tree(*old(value)) is Object ==> {
            &&& json_tree(*final(value)) is Object
            &&& is_text(field_of(json_tree(*final(value)), name@), text@)
            &&& forall|other: Seq<char>|
                other != name@ ==> #[trigger] field_of(json_tree(*final(value)), other) == field_of(
                    json_tree(*old(value)),
                    other,
                )
        },
{
    put_field(value, name, text_value(text));
}

/// The member of an object with this name.
pub fn find_member<'a>(members: &'a Vec<(String, Json)>, name: &Vec<char>) -> (found: Option<
    &'a Json,
>)
    ensures
        match found {
            Some(value) => member_of(members@, name@, 0) == Some(*value),
            None => member_of(members@, name@, 0) is None,
        },
{
    let mut index: usize = 0;
    while index < members.len()
        invariant
            index <= members@.len(),
            member_of(members@, name@, 0) == member_of(members@, name@, index as int),
        decreases members@.len() - index,
    {
        if same_chars(&chars_of(members[index].0.as_str()), name) {
            return Some(&members[index].1);
        }
        index += 1;
    }
    None
}

/// The tree that a text stands for, if it is JSON.
pub fn parse_json(text: &str) -> (tree: Option<Json>)
    ensures
        tree == parsed_json(text@),
{
    match parse_value(text) {
        Some(value) => Some(tree_of(value)),
        None => None,
    }
}

/// What an object holds under a name is its first member of that name, and nothing where it has
/// none.
pub proof fn first_member_counts(members: Seq<(String, Json)>, name: Seq<char>, place: int, from: int)
    requires
        0 <= from <= place <= members.len(),
        forall|i: int| from <= i < place ==> (#[trigger] members[i]).0@ != name,
    ensures
        place < members.len() && members[place].0@ == name ==> member_of(members, name, from)
            == Some(members[place].1),
        place == members.len() ==> member_of(members, name, from) is None,
    decreases place - from,
{
    if from < place {
        assert(members[from].0@ != name);
        first_member_counts(members, name, place, from + 1);
    }
}

} // verus!
