//! JSON texts, read one value at a time.
use vstd::prelude::*;

use crate::floats::{count_in, float_count};
use crate::text::{decimal, number, opt_text, Text};

verus! {

broadcast use vstd::string::group_string_axioms;

/// A number in a JSON text: as an unsigned and as a signed integer where it is
/// one, and by the bits of the float that it is or is rounded to.
#[derive(Clone, Copy, Debug, PartialEq, Eq, Structural)]
pub struct JsonNumber {
    pub unsigned: Option<u64>,
    pub signed: Option<i64>,
    pub float: Option<u64>,
}

/// A value in a JSON text; of an array the length, of an object that it is
/// one.
#[derive(Debug)]
pub enum Json {
    Null,
    Bool(bool),
    Number(JsonNumber),
    Text(String),
    Array(usize),
    Object,
}

/// The view of [`Json`].
pub enum JsonView {
    Null,
    Bool(bool),
    Number(JsonNumber),
    Text(Text),
    Array(nat),
    Object,
}

impl View for Json {
    type V = JsonView;

    open spec fn view(&self) -> JsonView {
        match self {
            Json::Null => JsonView::Null,
            Json::Bool(b) => JsonView::Bool(*b),
            Json::Number(n) => JsonView::Number(*n),
            Json::Text(s) => JsonView::Text(s@),
            Json::Array(n) => JsonView::Array(*n as nat),
            Json::Object => JsonView::Object,
        }
    }
}

/// The value that stands at a JSON pointer in a text, by `serde_json`; `None`
/// where the text is no JSON or has nothing there.
pub uninterp spec fn json_at(text: Text, pointer: Text) -> Option<JsonView>;

/// The view of a value that may be missing.
pub open spec fn opt_json(o: Option<Json>) -> Option<JsonView> {
    match o {
        Some(j) => Some(j@),
        None => None,
    }
}

/// `serde_json::from_str` and `Value::pointer`: reads a JSON text and looks up
/// one value. That the same text and pointer give the same value is claimed,
/// and nothing of what it is.
#[verifier::external_body]
pub(crate) fn read_json(text: &str, pointer: &str) -> (r: Option<Json>)
    ensures
        opt_json(r) == json_at(text@, pointer@),
{
    let value: serde_json::Value = serde_json::from_str(text).ok()?;
    Some(match value.pointer(pointer)? {
        serde_json::Value::Null => Json::Null,
        serde_json::Value::Bool(b) => Json::Bool(*b),
        serde_json::Value::Number(n) => Json::Number(JsonNumber {
            unsigned: n.as_u64(),
            signed: n.as_i64(),
            float: n.as_f64().map(|x| x.to_bits()),
        }),
        serde_json::Value::String(s) => Json::Text(s.clone()),
        serde_json::Value::Array(a) => Json::Array(a.len()),
        serde_json::Value::Object(_) => Json::Object,
    })
}

/// What is wrong with a text that is no JSON, in the words of `serde_json`.
pub uninterp spec fn json_fault(text: Text) -> Option<Text>;

/// `serde_json::from_str` and the words of its error. Claimed is that the same
/// text gives the same words, and that there are some exactly where there is
/// nothing to read.
#[verifier::external_body]
pub(crate) fn read_fault(text: &str) -> (r: Option<String>)
    ensures
        opt_text(r) == json_fault(text@),
        r is None <==> json_at(text@, ""@) is Some,
{
    let read = serde_json::from_str::<serde_json::Value>(text);
    read.err().map(|fault| fault.to_string())
}

/// The text at a pointer, where there is one.
pub open spec fn text_at(text: Text, pointer: Text) -> Option<Text> {
    match json_at(text, pointer) {
        Some(JsonView::Text(s)) => Some(s),
        _ => None,
    }
}

/// The truth value at a pointer, where there is one.
pub open spec fn bool_at(text: Text, pointer: Text) -> Option<bool> {
    match json_at(text, pointer) {
        Some(JsonView::Bool(b)) => Some(b),
        _ => None,
    }
}

/// The length of the array at a pointer, where there is one.
pub open spec fn array_at(text: Text, pointer: Text) -> Option<nat> {
    match json_at(text, pointer) {
        Some(JsonView::Array(n)) => Some(n),
        _ => None,
    }
}

/// The text at a pointer, where there is one.
pub fn read_text(text: &str, pointer: &str) -> (r: Option<String>)
    ensures
        opt_text(r) == text_at(text@, pointer@),
{
    match read_json(text, pointer) {
        Some(Json::Text(s)) => Some(s),
        _ => None,
    }
}

/// The truth value at a pointer, where there is one.
pub fn read_bool(text: &str, pointer: &str) -> (r: Option<bool>)
    ensures
        r == bool_at(text@, pointer@),
{
    match read_json(text, pointer) {
        Some(Json::Bool(b)) => Some(b),
        _ => None,
    }
}

/// The length of the array at a pointer, where there is one.
pub fn read_array(text: &str, pointer: &str) -> (r: Option<usize>)
    ensures
        match r {
            Some(n) => array_at(text@, pointer@) == Some(n as nat),
            None => array_at(text@, pointer@) is None,
        },
{
    match read_json(text, pointer) {
        Some(Json::Array(n)) => Some(n),
        _ => None,
    }
}

/// Where a field of an item of a list stands.
pub open spec fn item_pointer(i: nat, field: Text) -> Text {
    "/"@ + decimal(i) + "/"@ + field
}

/// Where a field of an item of a list stands.
pub fn pointer_of(i: usize, field: &str) -> (out: String)
    ensures
        out@ == item_pointer(i as nat, field@),
{
    let mut p = "/".to_owned();
    p.append(number(i as u64).as_str());
    p.append("/");
    p.append(field);
    p
}

/// A number as a count: the unsigned integer that it is, else a signed one
/// that is not negative, else what is left of a fraction that is not negative.
pub open spec fn count_of(n: JsonNumber) -> Option<u64> {
    match (n.unsigned, n.signed, n.float) {
        (Some(u), _, _) => Some(u),
        (None, Some(i), _) if i >= 0 => Some(i as u64),
        (None, _, Some(bits)) => count_in(bits),
        _ => None,
    }
}

/// A number as a count.
pub fn json_u64(n: &JsonNumber) -> (r: Option<u64>)
    ensures
        r == count_of(*n),
{
    if let Some(u) = n.unsigned {
        return Some(u);
    }
    if let Some(i) = n.signed {
        if i >= 0 {
            return Some(i as u64);
        }
    }
    match n.float {
        Some(bits) => float_count(bits),
        None => None,
    }
}

/// A text as a JSON string, quotes and escapes included, by `serde_json`.
pub uninterp spec fn json_quoted(text: Text) -> Text;

/// `Value::to_string` on a string: the JSON form of a text. Claimed is that
/// the same text gives the same form, and that reading it gives the text back.
#[verifier::external_body]
pub(crate) fn quote(text: &str) -> (out: String)
    ensures
        out@ == json_quoted(text@),
        json_at(out@, ""@) == Some(JsonView::Text(text@)),
{
    serde_json::Value::String(text.to_string()).to_string()
}

/// The JSON form of the value that stands at a pointer in a text, by
/// `serde_json`; `None` where there is none.
pub uninterp spec fn json_raw(text: Text, pointer: Text) -> Option<Text>;

/// `Value::pointer` and `Value::to_string`: the value at a pointer, as JSON
/// again. Claimed is that the same text and pointer give the same form, and
/// that there is one exactly where there is a value.
#[verifier::external_body]
pub(crate) fn read_raw(text: &str, pointer: &str) -> (r: Option<String>)
    ensures
        opt_text(r) == json_raw(text@, pointer@),
        r is Some <==> json_at(text@, pointer@) is Some,
{
    let value: serde_json::Value = serde_json::from_str(text).ok()?;
    Some(value.pointer(pointer)?.to_string())
}

/// Whether a name can stand in a pointer as it is.
pub open spec fn plain_key(key: Text) -> bool {
    !key.contains('/') && !key.contains('~')
}

/// Whether a value is a text, a truth value or null.
pub open spec fn is_plain(v: JsonView) -> bool {
    v is Text || v is Bool || v is Null
}

/// Whether an object's members but one read as before, those that were texts,
/// truth values, null or missing.
pub open spec fn members_kept(from: Text, to: Text, but: Text) -> bool {
    forall|k: Text|
        plain_key(k) && k != but && (json_at(from, "/"@ + k) matches Some(v) ==> is_plain(v))
            ==> #[trigger] json_at(to, "/"@ + k) == json_at(from, "/"@ + k)
}

/// Whether nothing in a text but the whole is an array or an object.
pub open spec fn is_flat(text: Text) -> bool {
    forall|p: Text|
        (#[trigger] json_at(text, p) matches Some(v) && (v is Array || v is Object)) ==> p.len()
            == 0
}

/// `serde_json::Map::new`: an object without members. Claimed is how it is
/// written, and that it reads as such an object.
#[verifier::external_body]
pub(crate) fn empty_object() -> (out: String)
    ensures
        out@ == "{}"@,
        json_at(out@, ""@) == Some(JsonView::Object),
        is_flat(out@),
{
    serde_json::Value::Object(serde_json::Map::new()).to_string()
}

/// A JSON object with a member set to a value, by `serde_json`; `None` where
/// the text is no object.
pub uninterp spec fn json_inserted(text: Text, key: Text, value: JsonView) -> Option<Text>;

/// `Map::insert` on the object that a text holds. Claimed is that the same
/// text, name and value give the same object, when there is one, that the
/// member can be read back, that the other members are kept, and that no array
/// or object comes in.
#[verifier::external_body]
pub(crate) fn insert_member(text: &str, key: &str, value: &Json) -> (r: Option<String>)
    requires
        is_plain(value@),
    ensures
        opt_text(r) == json_inserted(text@, key@, value@),
        r is Some <==> json_at(text@, ""@) == Some(JsonView::Object),
        r matches Some(t) ==> json_at(t@, ""@) == Some(JsonView::Object) && (plain_key(key@)
            ==> json_at(t@, "/"@ + key@) == Some(value@)) && members_kept(text@, t@, key@) && (
        is_flat(text@) ==> is_flat(t@)),
{
    let mut whole: serde_json::Value = serde_json::from_str(text).ok()?;
    let part = match value {
        Json::Text(s) => serde_json::Value::String(s.clone()),
        Json::Bool(b) => serde_json::Value::Bool(*b),
        _ => serde_json::Value::Null,
    };
    whole.as_object_mut()?.insert(key.to_string(), part);
    Some(whole.to_string())
}

/// A JSON object without a member, by `serde_json`; `None` where the text is
/// no object.
pub uninterp spec fn json_removed(text: Text, key: Text) -> Option<Text>;

/// `Map::remove` on the object that a text holds. Claimed is that the same
/// texts give the same object, when there is one, that nothing is read where
/// the member was, and that the other members are kept.
#[verifier::external_body]
pub(crate) fn remove_member(text: &str, key: &str) -> (r: Option<String>)
    ensures
        opt_text(r) == json_removed(text@, key@),
        r is Some <==> json_at(text@, ""@) == Some(JsonView::Object),
        r matches Some(t) ==> json_at(t@, ""@) == Some(JsonView::Object) && (plain_key(key@)
            ==> json_at(t@, "/"@ + key@) is None) && members_kept(text@, t@, key@),
{
    let mut whole: serde_json::Value = serde_json::from_str(text).ok()?;
    whole.as_object_mut()?.remove(key);
    Some(whole.to_string())
}

/// A JSON object with a member set to a value that is given as JSON, by
/// `serde_json`; `None` where the text is no object or the value no JSON.
pub uninterp spec fn json_with_raw(text: Text, key: Text, value: Text) -> Option<Text>;

/// `Map::insert` on the object that a text holds, with a value that is read
/// from JSON. Claimed is that the same texts give the same object, when there
/// is one, and, where it can be read again, that it is an object that keeps the
/// other members. An object that nests too deeply is written but not read.
#[verifier::external_body]
pub(crate) fn insert_raw(text: &str, key: &str, value: &str) -> (r: Option<String>)
    ensures
        opt_text(r) == json_with_raw(text@, key@, value@),
        r is Some <==> (json_at(text@, ""@) == Some(JsonView::Object) && json_at(value@, ""@) is Some),
        r matches Some(t) ==> json_at(t@, ""@) is Some ==> json_at(t@, ""@) == Some(
            JsonView::Object,
        ) && members_kept(text@, t@, key@),
{
    let mut whole: serde_json::Value = serde_json::from_str(text).ok()?;
    let part: serde_json::Value = serde_json::from_str(value).ok()?;
    whole.as_object_mut()?.insert(key.to_string(), part);
    Some(whole.to_string())
}

/// Whether `n` items of a list from position `a` on stand in another list from
/// position `b` on: under each name they hold the same text, or none.
pub open spec fn items_kept(from: Text, a: nat, to: Text, b: nat, n: nat) -> bool {
    forall|j: nat, k: Text|
        b <= j < b + n && plain_key(k) ==> #[trigger] text_at(to, item_pointer(j, k)) == text_at(
            from,
            item_pointer((j - b + a) as nat, k),
        )
}

/// Whether an item of a list holds under each name the text that a value holds
/// there, or none.
pub open spec fn item_holds(list: Text, i: nat, value: Text) -> bool {
    forall|k: Text|
        plain_key(k) ==> #[trigger] text_at(list, item_pointer(i, k)) == text_at(value, "/"@ + k)
}

/// A JSON array with a value, given as JSON, put in at a position, by
/// `serde_json`; `None` where the text is no array or the value no JSON.
pub uninterp spec fn json_put_in(list: Text, at: nat, value: Text) -> Option<Text>;

/// `Value::as_array_mut` and `Vec::insert`: puts a value into the array that a
/// text holds. Claimed is that the same texts and position give the same array,
/// when there is one, and, where no part of the value is an array or an object,
/// that the array reads as the items from before with the value among them.
#[verifier::external_body]
pub(crate) fn insert_item(list: &str, at: usize, value: &str) -> (r: Option<String>)
    requires
        array_at(list@, ""@) matches Some(n) ==> at <= n,
    ensures
        opt_text(r) == json_put_in(list@, at as nat, value@),
        r is Some <==> (array_at(list@, ""@) is Some && json_at(value@, ""@) is Some),
        r matches Some(t) ==> is_flat(value@) ==> {
            let n = array_at(list@, ""@)->0;
            &&& array_at(t@, ""@) == Some(n + 1)
            &&& items_kept(list@, 0, t@, 0, at as nat)
            &&& item_holds(t@, at as nat, value@)
            &&& items_kept(list@, at as nat, t@, at as nat + 1, (n - at) as nat)
        },
{
    let mut whole: serde_json::Value = serde_json::from_str(list).ok()?;
    let part: serde_json::Value = serde_json::from_str(value).ok()?;
    whole.as_array_mut()?.insert(at, part);
    Some(whole.to_string())
}

/// Whether what stands elsewhere than below a pointer reads as before, where it
/// is a text or an array. Pointers with an escaped character are left out.
pub open spec fn rest_kept(from: Text, to: Text, but: Text) -> bool {
    forall|q: Text|
        #![trigger json_at(to, q)]
        !q.contains('~') && !but.is_prefix_of(q) ==> text_at(to, q) == text_at(from, q) && array_at(
            to,
            q,
        ) == array_at(from, q)
}

/// A JSON text with the value at a pointer replaced by one that is given as
/// JSON, by `serde_json`; `None` where there is none or the new one is no JSON.
pub uninterp spec fn json_replaced(text: Text, pointer: Text, value: Text) -> Option<Text>;

/// `Value::pointer_mut`: replaces the value at a pointer. Claimed is that the
/// same texts give the same result, when there is one, and, for a text, a truth
/// value or null at a pointer without escapes, that it can be read back there
/// and that the rest is kept.
#[verifier::external_body]
pub(crate) fn replace_value(text: &str, pointer: &str, value: &str) -> (r: Option<String>)
    ensures
        opt_text(r) == json_replaced(text@, pointer@, value@),
        r is Some <==> (json_at(text@, pointer@) is Some && json_at(value@, ""@) is Some),
        r matches Some(t) ==> is_plain(json_at(value@, ""@)->0) && !pointer@.contains('~') ==> json_at(
            t@,
            pointer@,
        ) == json_at(value@, ""@) && rest_kept(text@, t@, pointer@),
{
    let mut whole: serde_json::Value = serde_json::from_str(text).ok()?;
    let part: serde_json::Value = serde_json::from_str(value).ok()?;
    *whole.pointer_mut(pointer)? = part;
    Some(whole.to_string())
}

} // verus!
