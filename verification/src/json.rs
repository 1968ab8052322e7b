//! JSON values as plain data.
use vstd::prelude::*;

use crate::text::same_text;

verus! {

/// A JSON value. The members of an object stand in a list of name and value.
#[derive(Debug)]
pub enum Json {
    Null,
    Bool(bool),
    /// A number, as the text that spells it.
    Number(String),
    Text(String),
    Array(Vec<Json>),
    Object(Vec<(String, Json)>),
}

/// The mathematical counterpart of [`Json`].
pub enum JsonView {
    Null,
    Bool(bool),
    Number(Seq<char>),
    Text(Seq<char>),
    Array(Seq<JsonView>),
    Object(Seq<(Seq<char>, JsonView)>),
}

impl View for Json {
    type V = JsonView;

    open spec fn view(&self) -> JsonView {
        json_view(*self)
    }
}

/// What a [`Json`] value stands for.
pub open spec fn json_view(j: Json) -> JsonView
    decreases j,
{
    match j {
        Json::Null => JsonView::Null,
        Json::Bool(b) => JsonView::Bool(b),
        Json::Number(s) => JsonView::Number(s@),
        Json::Text(s) => JsonView::Text(s@),
        Json::Array(items) => JsonView::Array(
            Seq::new(
                items@.len(),
                |i: int|
                    if 0 <= i < items@.len() {
                        json_view(items@[i])
                    } else {
                        JsonView::Null
                    },
            ),
        ),
        Json::Object(members) => JsonView::Object(
            Seq::new(
                members@.len(),
                |i: int|
                    if 0 <= i < members@.len() {
                        (members@[i].0@, json_view(members@[i].1))
                    } else {
                        (Seq::empty(), JsonView::Null)
                    },
            ),
        ),
    }
}

impl JsonView {
    /// The text, where the value is one.
    pub open spec fn text(self) -> Option<Seq<char>> {
        match self {
            JsonView::Text(s) => Some(s),
            _ => None,
        }
    }

    /// The items, where the value is an array.
    pub open spec fn items(self) -> Option<Seq<JsonView>> {
        match self {
            JsonView::Array(items) => Some(items),
            _ => None,
        }
    }

    /// The member called `name`, where the value is an object that has one.
    pub open spec fn member(self, name: Seq<char>) -> Option<JsonView> {
        match self {
            JsonView::Object(members) => first_member(members, name),
            _ => None,
        }
    }

    /// The text of the member called `name`.
    pub open spec fn text_member(self, name: Seq<char>) -> Option<Seq<char>> {
        match self.member(name) {
            Some(value) => value.text(),
            None => None,
        }
    }
}

/// The value of the first of `members` that is called `name`.
pub open spec fn first_member(members: Seq<(Seq<char>, JsonView)>, name: Seq<char>) -> Option<
    JsonView,
>
    decreases members.len(),
{
    if members.len() == 0 {
        None
    } else if members.first().0 == name {
        Some(members.first().1)
    } else {
        first_member(members.drop_first(), name)
    }
}

/// The model of an optional reference to a value.
pub open spec fn opt_json(o: Option<&Json>) -> Option<JsonView> {
    match o {
        Some(j) => Some(j@),
        None => None,
    }
}

/// The model of an optional text slice.
pub open spec fn opt_str(o: Option<&str>) -> Option<Seq<char>> {
    match o {
        Some(s) => Some(s@),
        None => None,
    }
}

impl Json {
    /// The text, where the value is one.
    pub fn as_str(&self) -> (r: Option<&str>)
        ensures
            opt_str(r) == self@.text(),
    {
        match self {
            Json::Text(s) => Some(s.as_str()),
            _ => None,
        }
    }

    /// The items, where the value is an array.
    pub fn as_array(&self) -> (r: Option<&Vec<Json>>)
        ensures
            match r {
                Some(items) => self@.items() == Some(items@.map_values(|j: Json| j@)),
                None => self@.items() is None,
            },
    {
        match self {
            Json::Array(items) => {
                proof {
                    assert(self@.items()->0 =~= items@.map_values(|j: Json| j@));
                }
                Some(items)
            },
            _ => None,
        }
    }

    /// The member called `name`, where the value is an object that has one.
    pub fn get(&self, name: &str) -> (r: Option<&Json>)
        ensures
            opt_json(r) == self@.member(name@),
    {
        match self {
            Json::Object(members) => {
                let ghost view = self@->Object_0;
                let mut i: usize = 0;
                assert(view.skip(0) =~= view);
                while i < members.len()
                    invariant
                        i <= members@.len(),
                        view.len() == members@.len(),
                        forall|k: int|
                            0 <= k < members@.len() ==> #[trigger] view[k] == (
                                members@[k].0@,
                                members@[k].1@,
                            ),
                        self@ == JsonView::Object(view),
                        first_member(view, name@) == first_member(view.skip(i as int), name@),
                    decreases members.len() - i,
                {
                    assert(view.skip(i as int).first() == view[i as int]);
                    assert(view.skip(i as int).drop_first() =~= view.skip(i + 1));
                    if same_text(members[i].0.as_str(), name) {
                        return Some(&members[i].1);
                    }
                    i = i + 1;
                }
                None
            },
            _ => None,
        }
    }

    /// The text of the member called `name`.
    pub fn get_str(&self, name: &str) -> (r: Option<&str>)
        ensures
            opt_str(r) == self@.text_member(name@),
    {
        match self.get(name) {
            Some(value) => value.as_str(),
            None => None,
        }
    }
}

// ---------------------------------------------------------------------------
// Parsing
// ---------------------------------------------------------------------------

/// A document tree as `serde_json` holds it.
#[verifier::external_type_specification]
#[verifier::external_body]
pub struct ExValue(serde_json::Value);

/// The reason why `serde_json` refused a document.
#[verifier::external_type_specification]
#[verifier::external_body]
pub struct ExJsonError(serde_json::Error);

/// What a `serde_json::Value` holds.
pub uninterp spec fn value_content(value: serde_json::Value) -> JsonView;

/// The value that a JSON document spells, if the text is one.
pub uninterp spec fn json_of_text(text: Seq<char>) -> Option<JsonView>;

/// `serde_json::from_str` into a `serde_json::Value`: whether the text is accepted, and
/// the tree that comes out, depend on the text alone and are known under the names
/// [`json_of_text`] and [`value_content`].
#[verifier::external_body]
fn parse_value(text: &str) -> (r: Result<serde_json::Value, serde_json::Error>)
    ensures
        match r {
            Ok(value) => json_of_text(text@) == Some(value_content(value)),
            Err(_) => json_of_text(text@) is None,
        },
{
    serde_json::from_str(text)
}

/// Takes a `serde_json::Value` apart, variant by variant, into a [`Json`] of the same
/// shape: a number becomes its text, an object the list of its members.
#[verifier::external_body]
fn json_of_value(value: serde_json::Value) -> (r: Json)
    ensures
        r@ == value_content(value),
{
    match value {
        serde_json::Value::Null => Json::Null,
        serde_json::Value::Bool(b) => Json::Bool(b),
        serde_json::Value::Number(n) => Json::Number(n.to_string()),
        serde_json::Value::String(s) => Json::Text(s),
        serde_json::Value::Array(items) => Json::Array(
            items.into_iter().map(json_of_value).collect(),
        ),
        serde_json::Value::Object(members) => Json::Object(
            members.into_iter().map(|(name, value)| (name, json_of_value(value))).collect(),
        ),
    }
}

/// Reads a JSON document; `None` where the text is not one.
pub fn parse_json(text: &str) -> (r: Option<Json>)
    ensures
        match r {
            Some(j) => json_of_text(text@) == Some(j@),
            None => json_of_text(text@) is None,
        },
{
    match parse_value(text) {
        Ok(value) => Some(json_of_value(value)),
        Err(_) => None,
    }
}

/// The member of an object is the value of the first of its members with that name;
/// there is none where no member has the name, or where the value is no object.
pub proof fn law_member_is_the_first(
    before: Seq<(Seq<char>, JsonView)>,
    name: Seq<char>,
    value: JsonView,
    behind: Seq<(Seq<char>, JsonView)>,
)
    requires
        forall|i: int| 0 <= i < before.len() ==> (#[trigger] before[i]).0 != name,
    ensures
        JsonView::Object(before + seq![(name, value)] + behind).member(name) == Some(value),
        JsonView::Object(before).member(name) is None,
    decreases before.len(),
{
    let all = before + seq![(name, value)] + behind;
    if before.len() > 0 {
        let rest = before.drop_first();
        assert(before[0].0 != name);
        assert forall|i: int| 0 <= i < rest.len() implies (#[trigger] rest[i]).0 != name by {
            assert(rest[i] == before[i + 1]);
        }
        law_member_is_the_first(rest, name, value, behind);
        assert(all.drop_first() =~= rest + seq![(name, value)] + behind);
        assert(all.first() == before[0]);
    }
}

/// Only an object has members, only an array items, and only a text is one.
pub proof fn law_values_are_told_apart(j: JsonView, name: Seq<char>)
    ensures
        !(j is Object) ==> j.member(name) is None,
        j.items() is Some <==> j is Array,
        j matches JsonView::Array(items) ==> j.items() == Some(items),
        j.text() is Some <==> j is Text,
        j matches JsonView::Text(s) ==> j.text() == Some(s),
        j.text_member(name) matches Some(s) ==> j.member(name) == Some(JsonView::Text(s)),
        j.text_member(name) is Some <==> (j.member(name) matches Some(v) && v is Text),
{
}


} // verus!
