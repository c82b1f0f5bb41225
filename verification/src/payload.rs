//! Dispatch payloads: JSON on one side, the wire's structured values on the
//! other.

use crate::scalar::Wide;
use vstd::prelude::*;

verus! {

/// A JSON value. Objects keep their entries in order.
#[derive(Debug)]
pub enum JsonValue {
    Null,
    Bool(bool),
    Number(Wide),
    Text(String),
    Array(Vec<JsonValue>),
    Object(Vec<(String, JsonValue)>),
}

/// A structured value on the wire; a missing kind is possible there.
#[derive(Debug)]
pub enum WireValue {
    Missing,
    NullValue,
    NumberValue(Wide),
    StringValue(String),
    BoolValue(bool),
    StructValue(WireStruct),
    ListValue(Vec<WireValue>),
}

/// A structured record on the wire.
#[derive(Debug)]
pub struct WireStruct {
    pub fields: Vec<(String, WireValue)>,
}

/// What a value is, on either side.
pub enum Tree {
    Null,
    Bool(bool),
    Number(Wide),
    Text(Seq<char>),
    Array(Seq<Tree>),
    Object(Seq<(Seq<char>, Tree)>),
}

pub open spec fn json_tree(v: JsonValue) -> Tree
    decreases v,
{
    match v {
        JsonValue::Null => Tree::Null,
        JsonValue::Bool(b) => Tree::Bool(b),
        JsonValue::Number(n) => Tree::Number(n),
        JsonValue::Text(s) => Tree::Text(s@),
        JsonValue::Array(items) => Tree::Array(json_trees(items@)),
        JsonValue::Object(entries) => Tree::Object(json_entries(entries@)),
    }
}

pub open spec fn json_trees(items: Seq<JsonValue>) -> Seq<Tree>
    decreases items,
{
    if items.len() == 0 {
        Seq::empty()
    } else {
        json_trees(items.drop_last()).push(json_tree(items.last()))
    }
}

pub open spec fn json_entries(entries: Seq<(String, JsonValue)>) -> Seq<(Seq<char>, Tree)>
    decreases entries,
{
    if entries.len() == 0 {
        Seq::empty()
    } else {
        let e = entries.last();
        json_entries(entries.drop_last()).push((e.0@, json_tree(e.1)))
    }
}

pub open spec fn wire_tree(v: WireValue) -> Tree
    decreases v,
{
    match v {
        WireValue::Missing => Tree::Null,
        WireValue::NullValue => Tree::Null,
        WireValue::NumberValue(n) => Tree::Number(n),
        WireValue::StringValue(s) => Tree::Text(s@),
        WireValue::BoolValue(b) => Tree::Bool(b),
        WireValue::StructValue(s) => Tree::Object(wire_entries(s.fields@)),
        WireValue::ListValue(items) => Tree::Array(wire_trees(items@)),
    }
}

pub open spec fn wire_trees(items: Seq<WireValue>) -> Seq<Tree>
    decreases items,
{
    if items.len() == 0 {
        Seq::empty()
    } else {
        wire_trees(items.drop_last()).push(wire_tree(items.last()))
    }
}

pub open spec fn wire_entries(entries: Seq<(String, WireValue)>) -> Seq<(Seq<char>, Tree)>
    decreases entries,
{
    if entries.len() == 0 {
        Seq::empty()
    } else {
        let e = entries.last();
        wire_entries(entries.drop_last()).push((e.0@, wire_tree(e.1)))
    }
}

/// Converts a JSON value to its wire form.
pub fn wire_from_json(value: &JsonValue) -> (out: WireValue)
    ensures
        wire_tree(out) == json_tree(*value),
        !(out is Missing),
    decreases *value,
{
    match value {
        JsonValue::Null => WireValue::NullValue,
        JsonValue::Bool(b) => WireValue::BoolValue(*b),
        JsonValue::Number(n) => WireValue::NumberValue(*n),
        JsonValue::Text(s) => WireValue::StringValue(s.clone()),
        JsonValue::Array(items) => WireValue::ListValue(list_from_json(items)),
        JsonValue::Object(entries) => WireValue::StructValue(fields_from_json(entries)),
    }
}

fn list_from_json(items: &Vec<JsonValue>) -> (out: Vec<WireValue>)
    ensures
        wire_trees(out@) == json_trees(items@),
    decreases *items,
{
    let mut list: Vec<WireValue> = Vec::new();
    let mut i: usize = 0;
    while i < items.len()
        invariant
            i <= items.len(),
            wire_trees(list@) == json_trees(items@.subrange(0, i as int)),
        decreases items.len() - i,
    {
        assert(decreases_to!(*items => items@[i as int]));
        let item = wire_from_json(&items[i]);
        let ghost before = list@;
        list.push(item);
        assert(list@.drop_last() =~= before);
        assert(items@.subrange(0, i + 1).drop_last() =~= items@.subrange(0, i as int));
        i = i + 1;
    }
    assert(items@.subrange(0, items@.len() as int) =~= items@);
    list
}

fn fields_from_json(entries: &Vec<(String, JsonValue)>) -> (out: WireStruct)
    ensures
        wire_entries(out.fields@) == json_entries(entries@),
    decreases *entries,
{
    let mut fields: Vec<(String, WireValue)> = Vec::new();
    let mut i: usize = 0;
    while i < entries.len()
        invariant
            i <= entries.len(),
            wire_entries(fields@) == json_entries(entries@.subrange(0, i as int)),
        decreases entries.len() - i,
    {
        assert(decreases_to!(*entries => entries@[i as int].1));
        let item = wire_from_json(&entries[i].1);
        let ghost before = fields@;
        fields.push((entries[i].0.clone(), item));
        assert(fields@.drop_last() =~= before);
        assert(entries@.subrange(0, i + 1).drop_last() =~= entries@.subrange(0, i as int));
        i = i + 1;
    }
    assert(entries@.subrange(0, entries@.len() as int) =~= entries@);
    WireStruct { fields }
}

/// Converts a JSON object to a wire record; any other JSON value is refused.
pub fn json_to_struct(value: &JsonValue) -> (out: Result<WireStruct, String>)
    ensures
        match *value {
            JsonValue::Object(entries) => out matches Ok(s) && wire_entries(s.fields@)
                == json_entries(entries@),
            _ => out matches Err(e) && e@ == "payload must be a JSON object"@,
        },
{
    match value {
        JsonValue::Object(entries) => Ok(fields_from_json(entries)),
        _ => Err(String::from_str("payload must be a JSON object")),
    }
}

/// A value as JSON can hold it: a number that is not finite becomes null.
pub open spec fn jsonable(t: Tree) -> Tree
    decreases t,
{
    match t {
        Tree::Number(n) => if n.spec_is_finite() {
            t
        } else {
            Tree::Null
        },
        Tree::Array(items) => Tree::Array(jsonable_items(items)),
        Tree::Object(entries) => Tree::Object(jsonable_entries(entries)),
        _ => t,
    }
}

pub open spec fn jsonable_items(items: Seq<Tree>) -> Seq<Tree>
    decreases items,
{
    if items.len() == 0 {
        Seq::empty()
    } else {
        jsonable_items(items.drop_last()).push(jsonable(items.last()))
    }
}

pub open spec fn jsonable_entries(entries: Seq<(Seq<char>, Tree)>) -> Seq<(Seq<char>, Tree)>
    decreases entries,
{
    if entries.len() == 0 {
        Seq::empty()
    } else {
        jsonable_entries(entries.drop_last()).push((entries.last().0, jsonable(entries.last().1)))
    }
}

fn json_from_wire(value: &WireValue) -> (out: JsonValue)
    ensures
        json_tree(out) == jsonable(wire_tree(*value)),
    decreases *value,
{
    match value {
        WireValue::Missing => JsonValue::Null,
        WireValue::NullValue => JsonValue::Null,
        WireValue::NumberValue(n) => if n.is_finite() {
            JsonValue::Number(*n)
        } else {
            JsonValue::Null
        },
        WireValue::StringValue(s) => JsonValue::Text(s.clone()),
        WireValue::BoolValue(b) => JsonValue::Bool(*b),
        WireValue::StructValue(s) => JsonValue::Object(entries_from_wire(&s.fields)),
        WireValue::ListValue(items) => JsonValue::Array(items_from_wire(items)),
    }
}

fn items_from_wire(items: &Vec<WireValue>) -> (out: Vec<JsonValue>)
    ensures
        json_trees(out@) == jsonable_items(wire_trees(items@)),
    decreases *items,
{
    let mut list: Vec<JsonValue> = Vec::new();
    let mut i: usize = 0;
    while i < items.len()
        invariant
            i <= items.len(),
            json_trees(list@) == jsonable_items(wire_trees(items@.subrange(0, i as int))),
        decreases items.len() - i,
    {
        assert(decreases_to!(*items => items@[i as int]));
        let item = json_from_wire(&items[i]);
        let ghost before = list@;
        list.push(item);
        proof {
            assert(list@.drop_last() =~= before);
            let seen = items@.subrange(0, i as int);
            assert(items@.subrange(0, i + 1).drop_last() =~= seen);
            let trees = wire_trees(seen);
            let t = wire_tree(items@[i as int]);
            assert(trees.push(t).drop_last() =~= trees);
        }
        i = i + 1;
    }
    assert(items@.subrange(0, items@.len() as int) =~= items@);
    list
}

fn entries_from_wire(entries: &Vec<(String, WireValue)>) -> (out: Vec<(String, JsonValue)>)
    ensures
        json_entries(out@) == jsonable_entries(wire_entries(entries@)),
    decreases *entries,
{
    let mut list: Vec<(String, JsonValue)> = Vec::new();
    let mut i: usize = 0;
    while i < entries.len()
        invariant
            i <= entries.len(),
            json_entries(list@) == jsonable_entries(
                wire_entries(entries@.subrange(0, i as int)),
            ),
        decreases entries.len() - i,
    {
        assert(decreases_to!(*entries => entries@[i as int].1));
        let item = json_from_wire(&entries[i].1);
        let ghost before = list@;
        list.push((entries[i].0.clone(), item));
        proof {
            assert(list@.drop_last() =~= before);
            let seen = entries@.subrange(0, i as int);
            assert(entries@.subrange(0, i + 1).drop_last() =~= seen);
            let trees = wire_entries(seen);
            let e = (entries@[i as int].0@, wire_tree(entries@[i as int].1));
            assert(trees.push(e).drop_last() =~= trees);
        }
        i = i + 1;
    }
    assert(entries@.subrange(0, entries@.len() as int) =~= entries@);
    list
}

/// Converts a wire record back to a JSON object.
pub fn struct_to_json(s: &WireStruct) -> (out: JsonValue)
    ensures
        json_tree(out) == Tree::Object(jsonable_entries(wire_entries(s.fields@))),
{
    JsonValue::Object(entries_from_wire(&s.fields))
}

/// Every number in the value is finite, as every JSON number is.
pub open spec fn all_finite(t: Tree) -> bool
    decreases t,
{
    match t {
        Tree::Number(n) => n.spec_is_finite(),
        Tree::Array(items) => items_finite(items),
        Tree::Object(entries) => entries_finite(entries),
        _ => true,
    }
}

pub open spec fn items_finite(items: Seq<Tree>) -> bool
    decreases items,
{
    items.len() == 0 || (items_finite(items.drop_last()) && all_finite(items.last()))
}

pub open spec fn entries_finite(entries: Seq<(Seq<char>, Tree)>) -> bool
    decreases entries,
{
    entries.len() == 0 || (entries_finite(entries.drop_last()) && all_finite(entries.last().1))
}

proof fn finite_is_jsonable(t: Tree)
    requires
        all_finite(t),
    ensures
        jsonable(t) == t,
    decreases t,
{
    match t {
        Tree::Array(items) => finite_items_jsonable(items),
        Tree::Object(entries) => finite_entries_jsonable(entries),
        _ => {},
    }
}

proof fn finite_items_jsonable(items: Seq<Tree>)
    requires
        items_finite(items),
    ensures
        jsonable_items(items) == items,
    decreases items,
{
    if items.len() > 0 {
        finite_items_jsonable(items.drop_last());
        finite_is_jsonable(items.last());
        assert(items =~= items.drop_last().push(items.last()));
    } else {
        assert(items =~= Seq::<Tree>::empty());
    }
}

proof fn finite_entries_jsonable(entries: Seq<(Seq<char>, Tree)>)
    requires
        entries_finite(entries),
    ensures
        jsonable_entries(entries) == entries,
    decreases entries,
{
    if entries.len() > 0 {
        finite_entries_jsonable(entries.drop_last());
        finite_is_jsonable(entries.last().1);
        assert(entries =~= entries.drop_last().push(entries.last()));
    } else {
        assert(entries =~= Seq::<(Seq<char>, Tree)>::empty());
    }
}

/// A JSON object survives the trip to the wire and back.
pub proof fn payload_round_trip(entries: Seq<(String, JsonValue)>, record: WireStruct)
    requires
        entries_finite(json_entries(entries)),
        wire_entries(record.fields@) == json_entries(entries),
    ensures
        jsonable_entries(wire_entries(record.fields@)) == json_entries(entries),
{
    finite_entries_jsonable(json_entries(entries));
}

/// A JSON value and its parts mean the same: a list keeps its items in order, an
/// object its keys and values, and a plain value is itself.
pub proof fn json_means_its_parts(v: JsonValue)
    ensures
        v is Null ==> json_tree(v) == Tree::Null,
        v matches JsonValue::Bool(b) ==> json_tree(v) == Tree::Bool(b),
        v matches JsonValue::Number(n) ==> json_tree(v) == Tree::Number(n),
        v matches JsonValue::Text(s) ==> json_tree(v) == Tree::Text(s@),
        v matches JsonValue::Array(items) ==> (json_tree(v) matches Tree::Array(trees)
            && trees.len() == items@.len() && forall|i: int|
            0 <= i < items@.len() ==> #[trigger] trees[i] == json_tree(items@[i])),
        v matches JsonValue::Object(entries) ==> (json_tree(v) matches Tree::Object(trees)
            && trees.len() == entries@.len() && forall|i: int|
            0 <= i < entries@.len() ==> #[trigger] trees[i] == (
                entries@[i].0@,
                json_tree(entries@[i].1),
            )),
{
    if let JsonValue::Array(items) = v {
        json_items_keep_place(items@);
    }
    if let JsonValue::Object(entries) = v {
        json_entries_keep_place(entries@);
    }
}

proof fn json_items_keep_place(items: Seq<JsonValue>)
    ensures
        json_trees(items).len() == items.len(),
        forall|i: int|
            0 <= i < items.len() ==> #[trigger] json_trees(items)[i] == json_tree(items[i]),
    decreases items.len(),
{
    if items.len() > 0 {
        json_items_keep_place(items.drop_last());
    }
}

proof fn json_entries_keep_place(entries: Seq<(String, JsonValue)>)
    ensures
        json_entries(entries).len() == entries.len(),
        forall|i: int|
            0 <= i < entries.len() ==> #[trigger] json_entries(entries)[i] == (
                entries[i].0@,
                json_tree(entries[i].1),
            ),
    decreases entries.len(),
{
    if entries.len() > 0 {
        json_entries_keep_place(entries.drop_last());
    }
}

/// A wire value and its parts mean the same; one that is missing means null.
pub proof fn wire_means_its_parts(v: WireValue)
    ensures
        v is Missing || v is NullValue ==> wire_tree(v) == Tree::Null,
        v matches WireValue::BoolValue(b) ==> wire_tree(v) == Tree::Bool(b),
        v matches WireValue::NumberValue(n) ==> wire_tree(v) == Tree::Number(n),
        v matches WireValue::StringValue(s) ==> wire_tree(v) == Tree::Text(s@),
        v matches WireValue::ListValue(items) ==> (wire_tree(v) matches Tree::Array(trees)
            && trees.len() == items@.len() && forall|i: int|
            0 <= i < items@.len() ==> #[trigger] trees[i] == wire_tree(items@[i])),
        v matches WireValue::StructValue(s) ==> (wire_tree(v) matches Tree::Object(trees)
            && trees.len() == s.fields@.len() && forall|i: int|
            0 <= i < s.fields@.len() ==> #[trigger] trees[i] == (
                s.fields@[i].0@,
                wire_tree(s.fields@[i].1),
            )),
{
    if let WireValue::ListValue(items) = v {
        wire_items_keep_place(items@);
    }
    if let WireValue::StructValue(s) = v {
        wire_entries_keep_place(s.fields@);
    }
}

proof fn wire_items_keep_place(items: Seq<WireValue>)
    ensures
        wire_trees(items).len() == items.len(),
        forall|i: int|
            0 <= i < items.len() ==> #[trigger] wire_trees(items)[i] == wire_tree(items[i]),
    decreases items.len(),
{
    if items.len() > 0 {
        wire_items_keep_place(items.drop_last());
    }
}

proof fn wire_entries_keep_place(entries: Seq<(String, WireValue)>)
    ensures
        wire_entries(entries).len() == entries.len(),
        forall|i: int|
            0 <= i < entries.len() ==> #[trigger] wire_entries(entries)[i] == (
                entries[i].0@,
                wire_tree(entries[i].1),
            ),
    decreases entries.len(),
{
    if entries.len() > 0 {
        wire_entries_keep_place(entries.drop_last());
    }
}

/// What JSON can hold is finite: a number that is not becomes null, every other
/// plain value stays, and lists and objects keep their shape.
pub proof fn only_finite_numbers_reach_json(t: Tree)
    ensures
        t matches Tree::Number(n) ==> jsonable(t) == if n.spec_is_finite() {
            t
        } else {
            Tree::Null
        },
        t is Null || t is Bool || t is Text ==> jsonable(t) == t,
        t matches Tree::Array(items) ==> (jsonable(t) matches Tree::Array(kept) && kept.len()
            == items.len() && forall|i: int|
            0 <= i < items.len() ==> #[trigger] kept[i] == jsonable(items[i])),
        t matches Tree::Object(entries) ==> (jsonable(t) matches Tree::Object(kept) && kept.len()
            == entries.len() && forall|i: int|
            0 <= i < entries.len() ==> #[trigger] kept[i] == (
                entries[i].0,
                jsonable(entries[i].1),
            )),
{
    if let Tree::Array(items) = t {
        kept_items_keep_place(items);
    }
    if let Tree::Object(entries) = t {
        kept_entries_keep_place(entries);
    }
}

proof fn kept_items_keep_place(items: Seq<Tree>)
    ensures
        jsonable_items(items).len() == items.len(),
        forall|i: int|
            0 <= i < items.len() ==> #[trigger] jsonable_items(items)[i] == jsonable(items[i]),
    decreases items.len(),
{
    if items.len() > 0 {
        kept_items_keep_place(items.drop_last());
    }
}

proof fn kept_entries_keep_place(entries: Seq<(Seq<char>, Tree)>)
    ensures
        jsonable_entries(entries).len() == entries.len(),
        forall|i: int|
            0 <= i < entries.len() ==> #[trigger] jsonable_entries(entries)[i] == (
                entries[i].0,
                jsonable(entries[i].1),
            ),
    decreases entries.len(),
{
    if entries.len() > 0 {
        kept_entries_keep_place(entries.drop_last());
    }
}

} // verus!
