//! JSON values, and the layers of `message` in which a report comes wrapped.

use serde_json::Value;
use vstd::prelude::*;

use crate::text;

verus! {

/// A member of a JSON object.
#[derive(Debug)]
pub struct Member {
    pub key: String,
    pub value: Json,
}

/// A JSON value. Of a number it holds the value where that is an `i64`.
#[derive(Debug)]
pub enum Json {
    Null,
    Bool(bool),
    Number(Option<i64>),
    Text(String),
    Array(Vec<Json>),
    Object(Vec<Member>),
}

/// What a [`Json`] stands for.
pub enum JsonModel {
    Null,
    Bool(bool),
    Number(Option<i64>),
    Text(Seq<char>),
    Array(Seq<JsonModel>),
    Object(Seq<(Seq<char>, JsonModel)>),
}

impl View for Json {
    type V = JsonModel;

    open spec fn view(&self) -> JsonModel
        decreases self,
    {
        match self {
            Json::Null => JsonModel::Null,
            Json::Bool(b) => JsonModel::Bool(*b),
            Json::Number(n) => JsonModel::Number(*n),
            Json::Text(s) => JsonModel::Text(s@),
            Json::Array(v) => JsonModel::Array(
                Seq::new(
                    v@.len(),
                    |i: int|
                        if 0 <= i < v@.len() {
                            v@[i].view()
                        } else {
                            JsonModel::Null
                        },
                ),
            ),
            Json::Object(v) => JsonModel::Object(
                Seq::new(
                    v@.len(),
                    |i: int|
                        if 0 <= i < v@.len() {
                            (v@[i].key@, v@[i].value.view())
                        } else {
                            (Seq::empty(), JsonModel::Null)
                        },
                ),
            ),
        }
    }
}

/// The value of the first member with the key `key`.
pub open spec fn member(members: Seq<(Seq<char>, JsonModel)>, key: Seq<char>) -> Option<JsonModel>
    decreases members.len(),
{
    if members.len() == 0 {
        None
    } else if members[0].0 == key {
        Some(members[0].1)
    } else {
        member(members.skip(1), key)
    }
}

impl JsonModel {
    /// The member `key` of an object; nothing of any other value.
    pub open spec fn get(self, key: Seq<char>) -> Option<JsonModel> {
        match self {
            JsonModel::Object(members) => member(members, key),
            _ => None,
        }
    }

    /// A measure of the text that it takes to write the value down.
    pub open spec fn size(self) -> nat
        decreases self,
    {
        match self {
            JsonModel::Null | JsonModel::Bool(_) | JsonModel::Number(_) => 1,
            JsonModel::Text(s) => s.len() + 1,
            JsonModel::Array(v) => 1 + Self::elements_size(v),
            JsonModel::Object(v) => 1 + Self::members_size(v),
        }
    }

    pub open spec fn elements_size(v: Seq<JsonModel>) -> nat
        decreases v,
    {
        if v.len() == 0 {
            0
        } else {
            v[0].size() + Self::elements_size(v.skip(1))
        }
    }

    pub open spec fn members_size(v: Seq<(Seq<char>, JsonModel)>) -> nat
        decreases v,
    {
        if v.len() == 0 {
            0
        } else {
            v[0].0.len() + v[0].1.size() + Self::members_size(v.skip(1))
        }
    }
}

/// The value that `serde_json::from_str` reads from a text, if it reads one.
pub uninterp spec fn json_of(text: Seq<char>) -> Option<JsonModel>;

/// `serde_json::Value`, which passes from `serde_json::from_str` to [`json_of_value`] unread.
#[verifier::external_type_specification]
#[verifier::external_body]
pub struct ExValue(Value);

/// Carries a `serde_json::Value` over, variant by variant; a number through `Number::as_i64`.
/// Nothing is claimed of it alone: [`parse_json`] names the outcome of the two steps.
#[verifier::external_body]
fn json_of_value(value: Value) -> Json {
    match value {
        Value::Null => Json::Null,
        Value::Bool(b) => Json::Bool(b),
        Value::Number(n) => Json::Number(n.as_i64()),
        Value::String(s) => Json::Text(s),
        Value::Array(v) => Json::Array(v.into_iter().map(json_of_value).collect()),
        Value::Object(m) => Json::Object(
            m.into_iter().map(|(key, v)| Member { key, value: json_of_value(v) }).collect(),
        ),
    }
}

/// Reads a JSON text with `serde_json::from_str`.
///
/// Claimed of it: whether it reads a value, and which, depends on the text alone; and the value
/// is no larger than the text, since an escape is never shorter than the character that it
/// stands for and each string stands between quotes.
#[verifier::external_body]
pub(crate) fn parse_json(text: &str) -> (r: Option<Json>)
    ensures
        match r {
            Some(v) => json_of(text@) == Some(v@),
            None => json_of(text@) is None,
        },
        r matches Some(v) ==> v@.size() <= text@.len(),
{
    match serde_json::from_str::<Value>(text) {
        Ok(v) => Some(json_of_value(v)),
        Err(_) => None,
    }
}

proof fn lemma_member_is_smaller(members: Seq<(Seq<char>, JsonModel)>, key: Seq<char>)
    ensures
        member(members, key) matches Some(v) ==> v.size() <= JsonModel::members_size(members),
    decreases members.len(),
{
    if members.len() > 0 && members[0].0 != key {
        lemma_member_is_smaller(members.skip(1), key);
    }
}

/// A member is smaller than the object that holds it.
pub proof fn lemma_get_is_smaller(v: JsonModel, key: Seq<char>)
    ensures
        v.get(key) matches Some(w) ==> w.size() < v.size(),
{
    if let JsonModel::Object(members) = v {
        lemma_member_is_smaller(members, key);
    }
}

impl Json {
    /// The member `key` of an object; nothing of any other value.
    pub fn get<'a>(&'a self, key: &str) -> (r: Option<&'a Json>)
        ensures
            match r {
                Some(v) => self@.get(key@) == Some(v@),
                None => self@.get(key@) is None,
            },
    {
        match self {
            Json::Object(members) => {
                let ghost all = self@->Object_0;
                let n: usize = members.len();
                let mut i: usize = 0;
                proof {
                    reveal_with_fuel(<Json as View>::view, 2);
                    assert(all.skip(0) == all);
                }
                while i < n
                    invariant
                        i <= n,
                        n == members@.len(),
                        all.len() == n,
                        self@ == JsonModel::Object(all),
                        forall|j: int|
                            0 <= j < n ==> #[trigger] all[j] == (
                                members@[j].key@,
                                members@[j].value@,
                            ),
                        member(all, key@) == member(all.skip(i as int), key@),
                    decreases n - i,
                {
                    let m = &members[i];
                    assert(all.skip(i as int)[0] == all[i as int]);
                    if text::same(m.key.as_str(), key) {
                        return Some(&m.value);
                    }
                    assert(all.skip(i as int).skip(1) == all.skip(i + 1));
                    i = i + 1;
                }
                None
            },
            _ => None,
        }
    }

    /// Tells whether the value is an object.
    pub fn is_object(&self) -> (r: bool)
        ensures
            r == (self@ is Object),
    {
        match self {
            Json::Object(_) => true,
            _ => false,
        }
    }

    /// Tells whether the value is an array.
    pub fn is_array(&self) -> (r: bool)
        ensures
            r == (self@ is Array),
    {
        match self {
            Json::Array(_) => true,
            _ => false,
        }
    }
}

} // verus!
