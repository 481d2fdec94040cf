//! A JSON value as the document decoder hands it over.
//!
//! The decoder renders a document as JSON text and `serde_json` parses it.
//! The parsed value is copied, variant by variant, into [`Json`], whose
//! contents the traversal can read.

use crate::error::SearchError;
use vstd::prelude::*;
use vstd::string::*;

verus! {

/// A JSON value. An object keeps its members in the order `serde_json`
/// iterates them; a number keeps its decimal text.
#[derive(Debug)]
pub enum Json {
    Null,
    Bool(bool),
    Number(String),
    Text(String),
    Array(Vec<Json>),
    Object(Vec<(String, Json)>),
}

/// The value of the first member of `members` named `key`.
pub open spec fn find_member(members: Seq<(String, Json)>, key: Seq<char>) -> Option<Json>
    decreases members.len(),
{
    if members.len() == 0 {
        None
    } else if members[0].0@ == key {
        Some(members[0].1)
    } else {
        find_member(members.drop_first(), key)
    }
}

impl Json {
    /// The member named `key`, when this value is an object that has one.
    pub open spec fn member_of(self, key: Seq<char>) -> Option<Json> {
        match self {
            Json::Object(members) => find_member(members@, key),
            _ => None,
        }
    }

    /// The elements, when this value is an array.
    pub open spec fn items_of(self) -> Option<Seq<Json>> {
        match self {
            Json::Array(items) => Some(items@),
            _ => None,
        }
    }

    /// The characters, when this value is a string.
    pub open spec fn text_of(self) -> Option<Seq<char>> {
        match self {
            Json::Text(s) => Some(s@),
            _ => None,
        }
    }

    /// Number of values nested in this one, itself included.
    pub open spec fn size(self) -> nat
        decreases self,
    {
        match self {
            Json::Array(items) => 1 + total_size(items@),
            Json::Object(members) => 1 + members_size(members@),
            _ => 1,
        }
    }
}

/// Sum of the sizes of `values`.
pub open spec fn total_size(values: Seq<Json>) -> nat
    decreases values,
{
    if values.len() == 0 {
        0
    } else {
        values.last().size() + total_size(values.drop_last())
    }
}

/// Sum of the sizes of the values of `members`.
pub open spec fn members_size(members: Seq<(String, Json)>) -> nat
    decreases members,
{
    if members.len() == 0 {
        0
    } else {
        members.last().1.size() + members_size(members.drop_last())
    }
}

/// The size of a list is the size of its parts.
pub proof fn lemma_total_size_add(a: Seq<Json>, b: Seq<Json>)
    ensures
        total_size(a + b) == total_size(a) + total_size(b),
    decreases b.len(),
{
    if b.len() == 0 {
        assert(a + b =~= a);
    } else {
        assert((a + b).drop_last() =~= a + b.drop_last());
        lemma_total_size_add(a, b.drop_last());
    }
}

/// The size of a non-empty list is that of its head plus that of its tail.
pub proof fn lemma_total_size_front(values: Seq<Json>)
    requires
        values.len() > 0,
    ensures
        total_size(values) == values[0].size() + total_size(values.drop_first()),
{
    let head = seq![values[0]];
    assert(head + values.drop_first() =~= values);
    lemma_total_size_add(head, values.drop_first());
    assert(head.drop_last() =~= Seq::<Json>::empty());
    assert(head.last() == values[0]);
    assert(total_size(head.drop_last()) == 0);
    assert(total_size(head) == values[0].size());
}

proof fn lemma_member_within(members: Seq<(String, Json)>, key: Seq<char>)
    ensures
        find_member(members, key) matches Some(m) ==> m.size() <= members_size(members),
    decreases members.len(),
{
    if members.len() > 0 {
        lemma_members_size_front(members);
        if members[0].0@ != key {
            lemma_member_within(members.drop_first(), key);
        }
    }
}

proof fn lemma_members_size_front(members: Seq<(String, Json)>)
    requires
        members.len() > 0,
    ensures
        members_size(members) == members[0].1.size() + members_size(members.drop_first()),
    decreases members.len(),
{
    if members.len() == 1 {
        assert(members.drop_last() =~= members.drop_first());
    } else {
        let inner = members.drop_last();
        lemma_members_size_front(inner);
        assert(inner.drop_first() =~= members.drop_first().drop_last());
    }
}

/// A member of an object is smaller than the object.
pub proof fn lemma_member_is_smaller(value: Json, key: Seq<char>)
    ensures
        value.member_of(key) matches Some(m) ==> m.size() < value.size(),
{
    match value {
        Json::Object(members) => {
            lemma_member_within(members@, key);
        },
        _ => {},
    }
}

impl Json {
    /// The member named `key`, when this value is an object that has one.
    pub fn member<'a>(&'a self, key: &str) -> (found: Option<&'a Json>)
        ensures
            found matches Some(m) ==> self.member_of(key@) == Some(*m),
            found is None ==> self.member_of(key@) is None,
    {
        match self {
            Json::Object(members) => {
                let wanted = key.to_owned();
                let mut i: usize = 0;
                assert(members@.skip(0) =~= members@);
                while i < members.len()
                    invariant
                        i <= members.len(),
                        wanted@ == key@,
                        self.member_of(key@) == find_member(members@.skip(i as int), key@),
                    decreases members.len() - i,
                {
                    let ghost rest = members@.skip(i as int);
                    assert(rest[0] == members@[i as int]);
                    assert(rest.drop_first() =~= members@.skip(i + 1));
                    if members[i].0 == wanted {
                        return Some(&members[i].1);
                    }
                    i = i + 1;
                }
                None
            },
            _ => None,
        }
    }

    /// The elements, when this value is an array.
    pub fn items(&self) -> (found: Option<&Vec<Json>>)
        ensures
            found matches Some(v) ==> self.items_of() == Some(v@),
            found is None ==> self.items_of() is None,
    {
        match self {
            Json::Array(items) => Some(items),
            _ => None,
        }
    }

    /// The characters, when this value is a string.
    pub fn text(&self) -> (found: Option<&str>)
        ensures
            found matches Some(s) ==> self.text_of() == Some(s@),
            found is None ==> self.text_of() is None,
    {
        match self {
            Json::Text(s) => Some(s.as_str()),
            _ => None,
        }
    }
}

/// `serde_json::Value`, seen only by the function that copies it.
#[verifier::external_type_specification]
#[verifier::external_body]
pub struct ExValue(serde_json::Value);

/// `serde_json::Error`, the reason a text was rejected.
#[verifier::external_type_specification]
#[verifier::external_body]
pub struct ExJsonError(serde_json::Error);

/// The value that `serde_json::from_str` reads from `text`, copied into
/// [`Json`]; `None` when the text is rejected.
pub uninterp spec fn parsed_json(text: Seq<char>) -> Option<Json>;

/// Copies a `serde_json::Value` into a [`Json`], variant by variant. A
/// number is kept as the text its `Display` impl writes. Nothing is claimed
/// of the copy; the contract of [`parse_json`] names what comes out of both
/// steps together.
#[verifier::external_body]
fn json_of_value(value: &serde_json::Value) -> (json: Json) {
    match value {
        serde_json::Value::Null => Json::Null,
        serde_json::Value::Bool(b) => Json::Bool(*b),
        serde_json::Value::Number(n) => Json::Number(n.to_string()),
        serde_json::Value::String(s) => Json::Text(s.clone()),
        serde_json::Value::Array(items) => Json::Array(items.iter().map(json_of_value).collect()),
        serde_json::Value::Object(members) => Json::Object(
            members.iter().map(|(k, v)| (k.clone(), json_of_value(v))).collect(),
        ),
    }
}

/// Parses `text` with `serde_json::from_str` and copies the value read. The
/// contract claims that the outcome depends on the text alone, and names it.
#[verifier::external_body]
fn parse_json(text: &str) -> (res: Result<Json, serde_json::Error>)
    ensures
        res matches Ok(json) ==> parsed_json(text@) == Some(json),
        res is Err ==> parsed_json(text@) is None,
{
    match serde_json::from_str::<serde_json::Value>(text) {
        Ok(value) => Ok(json_of_value(&value)),
        Err(e) => Err(e),
    }
}

/// The message of a `serde_json::Error`, as its `Display` impl writes it.
#[verifier::external_body]
fn json_error_text(e: &serde_json::Error) -> (text: String) {
    e.to_string()
}

/// Reads a JSON value from `text`. A text that is not JSON is a `Decode`
/// failure.
pub fn json_from_text(text: &str) -> (res: Result<Json, SearchError>)
    ensures
        match res {
            Ok(json) => parsed_json(text@) == Some(json),
            Err(e) => e is Decode && parsed_json(text@) is None,
        },
{
    match parse_json(text) {
        Ok(json) => Ok(json),
        Err(e) => Err(SearchError::Decode(json_error_text(&e))),
    }
}

} // verus!
