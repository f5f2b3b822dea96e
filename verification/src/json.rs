//! JSON values, held and printed by `serde_json`.

use vstd::prelude::*;

verus! {

/// What a JSON value holds. An object keeps its entries in order; no key
/// stands twice in it.
pub enum JsonView {
    Number(u64),
    Text(Seq<char>),
    List(Seq<JsonView>),
    Object(Seq<(Seq<char>, JsonView)>),
    /// Null, a truth value, or a number that is no `u64`.
    Other,
}

/// `serde_json::Value`, carried as an opaque value.
#[verifier::external_type_specification]
#[verifier::external_body]
pub struct ExValue(serde_json::Value);

/// What a `serde_json::Value` holds.
pub uninterp spec fn json_view(value: serde_json::Value) -> JsonView;

/// The compact notation that `serde_json` prints for a plain value.
pub uninterp spec fn compact_text(value: JsonView) -> Seq<char>;

/// The indented notation that `serde_json` prints for a plain value.
pub uninterp spec fn pretty_text(value: JsonView) -> Seq<char>;

/// The value that `serde_json` reads in a text, where it reads one.
pub uninterp spec fn parsed(text: Seq<char>) -> Option<JsonView>;

/// Whether a value holds nothing but `u64` numbers, texts, arrays and objects,
/// which stand in each other at most `depth` deep.
pub open spec fn plain(value: JsonView, depth: nat) -> bool
    decreases depth,
{
    match value {
        JsonView::List(items) => depth > 0 && forall|i: int|
            0 <= i < items.len() ==> plain(#[trigger] items[i], (depth - 1) as nat),
        JsonView::Object(entries) => depth > 0 && forall|i: int|
            0 <= i < entries.len() ==> plain((#[trigger] entries[i]).1, (depth - 1) as nat),
        JsonView::Number(_) | JsonView::Text(_) => true,
        JsonView::Other => false,
    }
}

/// How deep objects and arrays may stand in each other for `serde_json` to
/// read them.
pub open spec fn depth_limit() -> nat {
    127
}

/// `Value::from(u64)`: the number.
#[verifier::external_body]
pub(crate) fn number(n: u64) -> (r: serde_json::Value)
    ensures
        json_view(r) == JsonView::Number(n),
{
    serde_json::Value::from(n)
}

/// `Value::from(&str)`: the string.
#[verifier::external_body]
pub(crate) fn string(s: &str) -> (r: serde_json::Value)
    ensures
        json_view(r) == JsonView::Text(s@),
{
    serde_json::Value::from(s)
}

/// What each of a sequence of values holds.
pub open spec fn json_views(values: Seq<serde_json::Value>) -> Seq<JsonView> {
    values.map_values(|v: serde_json::Value| json_view(v))
}

/// `Value::from(Vec<Value>)`: the array of the values, in order.
#[verifier::external_body]
pub(crate) fn list(values: Vec<serde_json::Value>) -> (r: serde_json::Value)
    ensures
        json_view(r) == JsonView::List(json_views(values@)),
{
    serde_json::Value::from(values)
}

/// What a sequence of named values holds.
pub open spec fn entry_views(entries: Seq<(String, serde_json::Value)>) -> Seq<
    (Seq<char>, JsonView),
> {
    entries.map_values(|e: (String, serde_json::Value)| (e.0@, json_view(e.1)))
}

/// Whether no key stands twice.
pub open spec fn distinct_keys(entries: Seq<(Seq<char>, JsonView)>) -> bool {
    forall|i: int, j: int|
        0 <= i < j < entries.len() ==> (#[trigger] entries[i]).0 != (#[trigger] entries[j]).0
}

/// `Value::from_iter`: the object with the entries, in order. (The order is
/// kept by `serde_json`'s feature `preserve_order`.)
#[verifier::external_body]
pub(crate) fn object(entries: Vec<(String, serde_json::Value)>) -> (r: serde_json::Value)
    requires
        distinct_keys(entry_views(entries@)),
    ensures
        json_view(r) == JsonView::Object(entry_views(entries@)),
{
    serde_json::Value::from_iter(entries)
}

/// `Value`'s `Display`, for a plain value: the compact notation, which escapes
/// every line break. Reading it gives back what was written.
#[verifier::external_body]
pub(crate) fn compact(value: &serde_json::Value) -> (r: String)
    requires
        plain(json_view(*value), depth_limit()),
    ensures
        r@ == compact_text(json_view(*value)),
        !r@.contains('\n'),
        parsed(r@) == Some(json_view(*value)),
{
    value.to_string()
}

/// `serde_json::to_string_pretty`, for a plain value: the indented notation.
/// Reading it, with a line break behind it, gives back what was written.
#[verifier::external_body]
pub(crate) fn pretty(value: &serde_json::Value) -> (r: String)
    requires
        plain(json_view(*value), depth_limit()),
    ensures
        r@ == pretty_text(json_view(*value)),
        parsed(r@ + "\n"@) == Some(json_view(*value)),
{
    serde_json::to_string_pretty(value).unwrap()
}

/// `serde_json::from_str::<Value>`: the value that the text denotes, if it
/// denotes one; which one it is is named, not stated.
#[verifier::external_body]
pub(crate) fn parse(text: &str) -> (r: Option<serde_json::Value>)
    ensures
        match r {
            Some(value) => parsed(text@) == Some(json_view(value)),
            None => parsed(text@) is None,
        },
{
    serde_json::from_str(text).ok()
}

/// The text that stands under a key of an object, if one does.
pub open spec fn text_under(value: JsonView, key: Seq<char>) -> Option<Seq<char>> {
    match value {
        JsonView::Object(entries) => if exists|i: int|
            0 <= i < entries.len() && (#[trigger] entries[i]).0 == key {
            let i = choose|i: int| 0 <= i < entries.len() && (#[trigger] entries[i]).0 == key;
            match entries[i].1 {
                JsonView::Text(s) => Some(s),
                _ => None,
            }
        } else {
            None
        },
        _ => None,
    }
}

/// `Value::get` with a key, and `Value::as_str` of what it returns: the text
/// under the key, where the value is an object that has one there.
#[verifier::external_body]
pub(crate) fn text_at(value: &serde_json::Value, key: &str) -> (r: Option<String>)
    ensures
        crate::text::option_view(r) == text_under(json_view(*value), key@),
{
    value.get(key).and_then(|found| found.as_str()).map(|s| s.to_owned())
}

/// What is plain stays so for a greater depth.
pub proof fn lemma_plain_grows(value: JsonView, a: nat, b: nat)
    requires
        plain(value, a),
        a <= b,
    ensures
        plain(value, b),
    decreases a,
{
    match value {
        JsonView::List(items) => {
            assert forall|i: int| 0 <= i < items.len() implies plain(
                #[trigger] items[i],
                (b - 1) as nat,
            ) by {
                lemma_plain_grows(items[i], (a - 1) as nat, (b - 1) as nat);
            }
        },
        JsonView::Object(entries) => {
            assert forall|i: int| 0 <= i < entries.len() implies plain(
                (#[trigger] entries[i]).1,
                (b - 1) as nat,
            ) by {
                lemma_plain_grows(entries[i].1, (a - 1) as nat, (b - 1) as nat);
            }
        },
        _ => {},
    }
}

} // verus!
