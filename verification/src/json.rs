//! JSON documents as the database's answers hold them.

use crate::text::same_text;
use vstd::prelude::*;
use vstd::std_specs::vec::axiom_vec_index_decreases;

verus! {

/// A JSON value.
#[derive(Debug)]
pub enum Json {
    Null,
    Bool(bool),
    /// A number, held as the text that the parser writes for the number
    /// it read: an integer as its decimal digits, with a minus sign where it
    /// is negative; any other number in the parser's shortest notation, so
    /// that `1.50` is held as `1.5` and `1E2` as `100.0`.
    Number(String),
    Text(String),
    Array(Vec<Json>),
    /// An object's members, each a key and a value.
    Object(Vec<(String, Json)>),
}

/// What a [`Json`] holds, with texts as sequences of characters.
pub enum JsonView {
    Null,
    Bool(bool),
    Number(Seq<char>),
    Text(Seq<char>),
    Array(Seq<JsonView>),
    Object(Seq<MemberView>),
}

/// One member of an object: its key and its value.
pub struct MemberView {
    pub key: Seq<char>,
    pub value: JsonView,
}

impl View for Json {
    type V = JsonView;

    open spec fn view(&self) -> JsonView
        decreases self,
    {
        match self {
            Json::Null => JsonView::Null,
            Json::Bool(b) => JsonView::Bool(*b),
            Json::Number(text) => JsonView::Number(text@),
            Json::Text(text) => JsonView::Text(text@),
            Json::Array(items) => JsonView::Array(
                Seq::new(
                    items@.len(),
                    |i: int|
                        if 0 <= i < items@.len() {
                            items@[i]@
                        } else {
                            JsonView::Null
                        },
                ),
            ),
            Json::Object(members) => JsonView::Object(
                Seq::new(
                    members@.len(),
                    |i: int|
                        if 0 <= i < members@.len() {
                            MemberView { key: members@[i].0@, value: members@[i].1@ }
                        } else {
                            MemberView { key: Seq::empty(), value: JsonView::Null }
                        },
                ),
            ),
        }
    }
}

/// The view of an object: each member's key and value by their views.
pub proof fn lemma_object_view(members: Vec<(String, Json)>)
    ensures
        Json::Object(members)@ matches JsonView::Object(pairs) && pairs.len() == members@.len()
            && forall|k: int|
            0 <= k < pairs.len() ==> #[trigger] pairs[k] == (MemberView {
                key: members@[k].0@,
                value: members@[k].1@,
            }),
{
}

/// The view of an array: each item by its view.
pub proof fn lemma_array_view(items: Vec<Json>)
    ensures
        Json::Array(items)@ matches JsonView::Array(views) && views.len() == items@.len()
            && forall|k: int| 0 <= k < views.len() ==> #[trigger] views[k] == items@[k]@,
{
}

/// `serde_json`'s own value type.
#[verifier::external_type_specification]
#[verifier::external_body]
pub struct ExValue(serde_json::Value);

/// The fault that `serde_json` reports for text that is no JSON document.
#[verifier::external_type_specification]
#[verifier::external_body]
pub struct ExJsonError(serde_json::Error);

/// The document that a text holds, read by `serde_json`; nothing where the
/// text is no JSON document.
pub uninterp spec fn json_document(text: Seq<u8>) -> Option<JsonView>;

/// A `serde_json::Value` as a [`Json`], variant for variant; a number by
/// its `Display` text, an object's members in the order the map yields them.
#[verifier::external_body]
fn json_of_value(value: serde_json::Value) -> Json {
    match value {
        serde_json::Value::Null => Json::Null,
        serde_json::Value::Bool(b) => Json::Bool(b),
        serde_json::Value::Number(n) => Json::Number(n.to_string()),
        serde_json::Value::String(s) => Json::Text(s),
        serde_json::Value::Array(a) => Json::Array(a.into_iter().map(json_of_value).collect()),
        serde_json::Value::Object(m) => Json::Object(
            m.into_iter().map(|(k, v)| (k, json_of_value(v))).collect(),
        ),
    }
}

/// `serde_json::from_slice` for a whole document: the value that the text
/// holds, or the fault where the text is no JSON document.
#[verifier::external_body]
pub(crate) fn parse_document(text: &[u8]) -> (parsed: Result<Json, serde_json::Error>)
    ensures
        parsed matches Ok(doc) ==> json_document(text@) == Some(doc@),
        parsed is Err ==> json_document(text@) is None,
{
    match serde_json::from_slice::<serde_json::Value>(text) {
        Ok(value) => Ok(json_of_value(value)),
        Err(e) => Err(e),
    }
}

/// The value of an object's member called `key`: that of the first member
/// of that name. A value that is no object has no members.
pub open spec fn member(doc: JsonView, key: Seq<char>) -> Option<JsonView> {
    match doc {
        JsonView::Object(members) => first_named(members, key),
        _ => None,
    }
}

/// The value of the first pair whose key is `key`.
pub open spec fn first_named(members: Seq<MemberView>, key: Seq<char>) -> Option<
    JsonView,
>
    decreases members.len(),
{
    if members.len() == 0 {
        None
    } else if members[0].key == key {
        Some(members[0].value)
    } else {
        first_named(members.skip(1), key)
    }
}

impl Json {
    /// A copy of the value.
    #[verifier::loop_isolation(false)]
    pub fn duplicate(&self) -> (copy: Json)
        ensures
            copy@ == self@,
        decreases self,
    {
        match self {
            Json::Null => Json::Null,
            Json::Bool(b) => Json::Bool(*b),
            Json::Number(text) => Json::Number(text.clone()),
            Json::Text(text) => Json::Text(text.clone()),
            Json::Array(items) => {
                let mut copies: Vec<Json> = Vec::new();
                let mut i: usize = 0;
                while i < items.len()
                    invariant
                        i <= items@.len(),
                        copies@.len() == i,
                        forall|k: int| 0 <= k < i ==> (#[trigger] copies@[k])@ == items@[k]@,
                    decreases items@.len() - i,
                {
                    proof {
                        axiom_vec_index_decreases(*items, i as int);
                    }
                    copies.push(items[i].duplicate());
                    i = i + 1;
                }
                proof {
                    lemma_array_view(*items);
                    lemma_array_view(copies);
                    assert(Json::Array(copies)@->Array_0 =~= self@->Array_0);
                }
                Json::Array(copies)
            },
            Json::Object(members) => {
                let mut copies: Vec<(String, Json)> = Vec::new();
                let mut i: usize = 0;
                while i < members.len()
                    invariant
                        i <= members@.len(),
                        copies@.len() == i,
                        forall|k: int|
                            0 <= k < i ==> (#[trigger] copies@[k]).0@ == members@[k].0@
                                && copies@[k].1@ == members@[k].1@,
                    decreases members@.len() - i,
                {
                    proof {
                        axiom_vec_index_decreases(*members, i as int);
                    }
                    copies.push((members[i].0.clone(), members[i].1.duplicate()));
                    i = i + 1;
                }
                proof {
                    lemma_object_view(*members);
                    lemma_object_view(copies);
                    assert(Json::Object(copies)@->Object_0 =~= self@->Object_0);
                }
                Json::Object(copies)
            },
        }
    }

    /// The text of a value that is a string.
    pub fn as_str(&self) -> (text: Option<&str>)
        ensures
            text matches Some(t) ==> self@ == JsonView::Text(t@),
            text is None ==> !(self@ is Text),
    {
        match self {
            Json::Text(text) => Some(text.as_str()),
            _ => None,
        }
    }

    /// The text of a value that is a number, as the parser writes it.
    pub fn as_number(&self) -> (text: Option<&str>)
        ensures
            text matches Some(t) ==> self@ == JsonView::Number(t@),
            text is None ==> !(self@ is Number),
    {
        match self {
            Json::Number(text) => Some(text.as_str()),
            _ => None,
        }
    }

    /// The value of the member called `key`, where this is an object that
    /// has one.
    pub fn get(&self, key: &str) -> (found: Option<&Json>)
        ensures
            found matches Some(value) ==> member(self@, key@) == Some(value@),
            found is None ==> member(self@, key@) is None,
    {
        match self {
            Json::Object(members) => {
                let mut i: usize = 0;
                proof {
                    lemma_object_view(*members);
                }
                let ghost pairs = self@->Object_0;
                assert(pairs.skip(0) =~= pairs);
                while i < members.len()
                    invariant
                        i <= members@.len(),
                        pairs.len() == members@.len(),
                        forall|k: int|
                            0 <= k < pairs.len() ==> #[trigger] pairs[k] == (MemberView {
                                key: members@[k].0@,
                                value: members@[k].1@,
                            }),
                        member(self@, key@) == first_named(pairs, key@),
                        first_named(pairs, key@) == first_named(pairs.skip(i as int), key@),
                    decreases members@.len() - i,
                {
                    proof {
                        let rest = pairs.skip(i as int);
                        assert(rest[0] == pairs[i as int]);
                        assert(rest.skip(1) =~= pairs.skip(i + 1));
                    }
                    if same_text(members[i].0.as_str(), key) {
                        return Some(&members[i].1);
                    }
                    i = i + 1;
                }
                None
            },
            _ => None,
        }
    }
}

} // verus!
