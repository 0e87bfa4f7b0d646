//! JSON values as the library holds them, read from text by serde_json.

use vstd::prelude::*;

verus! {

/// One member of a JSON object.
#[derive(Debug)]
pub struct Member {
    pub name: String,
    pub value: Json,
}

/// A JSON value.
#[derive(Debug)]
pub enum Json {
    Null,
    Bool(bool),
    /// A number; it is held only where it is an integer that fits `i64`.
    Number(Option<i64>),
    Text(String),
    Array(Vec<Json>),
    Object(Vec<Member>),
}

/// What a [`Member`] holds.
pub struct MemberView {
    pub name: Seq<char>,
    pub value: JsonView,
}

/// What a [`Json`] holds.
pub enum JsonView {
    Null,
    Bool(bool),
    Number(Option<int>),
    Text(Seq<char>),
    Array(Seq<JsonView>),
    Object(Seq<MemberView>),
}

/// What `json` holds, down to its leaves.
pub open spec fn json_view(json: Json) -> JsonView
    decreases json,
{
    match json {
        Json::Null => JsonView::Null,
        Json::Bool(b) => JsonView::Bool(b),
        Json::Number(n) => JsonView::Number(
            match n {
                Some(n) => Some(n as int),
                None => None,
            },
        ),
        Json::Text(text) => JsonView::Text(text@),
        Json::Array(items) => JsonView::Array(
            Seq::new(
                items@.len(),
                |i: int|
                    if 0 <= i < items@.len() {
                        json_view(items[i])
                    } else {
                        JsonView::Null
                    },
            ),
        ),
        Json::Object(members) => JsonView::Object(
            Seq::new(
                members@.len(),
                |i: int|
                    if 0 <= i < members@.len() {
                        MemberView { name: members[i].name@, value: json_view(members[i].value) }
                    } else {
                        MemberView { name: Seq::empty(), value: JsonView::Null }
                    },
            ),
        ),
    }
}

impl View for Json {
    type V = JsonView;

    open spec fn view(&self) -> JsonView {
        json_view(*self)
    }
}

impl View for Member {
    type V = MemberView;

    open spec fn view(&self) -> MemberView {
        MemberView { name: self.name@, value: self.value@ }
    }
}

/// What a sequence of values holds.
pub open spec fn json_views(items: Seq<Json>) -> Seq<JsonView> {
    items.map_values(|item: Json| item@)
}

/// What a sequence of members holds.
pub open spec fn member_views(members: Seq<Member>) -> Seq<MemberView> {
    members.map_values(|member: Member| member@)
}

/// An array holds what its items hold, an object what its members hold.
pub proof fn lemma_json_view(json: Json)
    ensures
        json matches Json::Array(items) ==> json@ == JsonView::Array(json_views(items@)),
        json matches Json::Object(members) ==> json@ == JsonView::Object(member_views(members@)),
{
    match json {
        Json::Array(items) => {
            assert(json@->Array_0 =~= json_views(items@));
        },
        Json::Object(members) => {
            assert(json@->Object_0 =~= member_views(members@));
        },
        _ => {},
    }
}

/// The text is not JSON.
#[derive(Debug, Clone, Copy, PartialEq, Eq, Structural)]
pub struct MalformedJson;

/// `serde_json::Error`, handed on without a look inside.
#[verifier::external_type_specification]
#[verifier::external_body]
pub struct ExJsonError(serde_json::Error);

/// `serde_json::Value`, handed on without a look inside; what it holds is
/// named by [`value_content`].
#[verifier::external_type_specification]
#[verifier::external_body]
pub struct ExJsonValue(serde_json::Value);

/// What a `serde_json::Value` holds: the same variant with the same fields,
/// a number as `Number::as_i64` gives it, and the members of an object in the
/// order in which its map hands them out.
pub uninterp spec fn value_content(value: serde_json::Value) -> JsonView;

/// What serde_json reads in a text: the value written there, or `None` where
/// it rejects the text.
pub uninterp spec fn parsed_json(text: Seq<char>) -> Option<JsonView>;

/// `serde_json::from_str` for a `serde_json::Value`. The contract only names
/// the outcome.
#[verifier::external_body]
fn read_value(text: &str) -> (r: Result<serde_json::Value, serde_json::Error>)
    ensures
        match r {
            Ok(value) => parsed_json(text@) == Some(value_content(value)),
            Err(_) => parsed_json(text@) is None,
        },
{
    serde_json::from_str::<serde_json::Value>(text)
}

/// Moves what a `serde_json::Value` holds into a [`Json`], variant by variant.
/// A number goes through `serde_json::Number::as_i64`; the items of an array
/// keep their order; the members of an object come in the order of
/// `serde_json::Map::into_iter`.
#[verifier::external_body]
fn to_json(value: serde_json::Value) -> (r: Json)
    ensures
        r@ == value_content(value),
{
    match value {
        serde_json::Value::Null => Json::Null,
        serde_json::Value::Bool(b) => Json::Bool(b),
        serde_json::Value::Number(n) => Json::Number(n.as_i64()),
        serde_json::Value::String(s) => Json::Text(s),
        serde_json::Value::Array(items) => Json::Array(items.into_iter().map(to_json).collect()),
        serde_json::Value::Object(members) => Json::Object(
            members.into_iter().map(|(name, v)| Member { name, value: to_json(v) }).collect(),
        ),
    }
}

/// The value of the first member of `members` that is called `name`.
pub open spec fn member_value(members: Seq<MemberView>, name: Seq<char>) -> Option<JsonView>
    decreases members.len(),
{
    if members.len() == 0 {
        None
    } else if members[0].name == name {
        Some(members[0].value)
    } else {
        member_value(members.drop_first(), name)
    }
}

/// Reads `text` as JSON.
pub fn parse_json(text: &str) -> (r: Result<Json, MalformedJson>)
    ensures
        match r {
            Ok(json) => parsed_json(text@) == Some(json@),
            Err(_) => parsed_json(text@) is None,
        },
{
    match read_value(text) {
        Ok(value) => Ok(to_json(value)),
        Err(_) => Err(MalformedJson),
    }
}

/// Looks up the first member of `members` that is called `name`.
pub fn find_member<'a>(members: &'a Vec<Member>, name: &str) -> (r: Option<&'a Json>)
    ensures
        match r {
            Some(value) => member_value(member_views(members@), name@) == Some(value@),
            None => member_value(member_views(members@), name@) is None,
        },
{
    let ghost all = member_views(members@);
    let wanted: String = name.to_owned();
    let mut i: usize = 0;
    assert(all.skip(0) == all);
    while i < members.len()
        invariant
            i <= members.len(),
            wanted@ == name@,
            all == member_views(members@),
            member_value(all, name@) == member_value(all.skip(i as int), name@),
        decreases members.len() - i,
    {
        proof {
            assert(all.skip(i as int).drop_first() == all.skip(i + 1));
            assert(all.skip(i as int)[0] == members@[i as int]@);
        }
        if members[i].name == wanted {
            return Some(&members[i].value);
        }
        i = i + 1;
    }
    None
}

} // verus!
