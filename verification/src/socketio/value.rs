//! JSON values.
use serde_json::Value as Json;
use vstd::prelude::*;
use vstd::string::*;

use crate::text;

verus! {

/// A JSON number.
#[derive(Debug, PartialEq, Eq)]
pub enum Number {
    Unsigned(u64),
    Negative(i64),
    /// A number that is no integer, as it is written.
    Real(String),
}

/// The value of a [`Number`].
pub enum NumberView {
    Unsigned(u64),
    Negative(i64),
    Real(Seq<char>),
}

impl View for Number {
    type V = NumberView;

    open spec fn view(&self) -> NumberView {
        match self {
            Number::Unsigned(n) => NumberView::Unsigned(*n),
            Number::Negative(n) => NumberView::Negative(*n),
            Number::Real(s) => NumberView::Real(s@),
        }
    }
}

/// A JSON value.
#[derive(Debug, PartialEq, Eq)]
pub enum Value {
    Null,
    Bool(bool),
    Number(Number),
    String(String),
    Array(Vec<Value>),
    Object(Vec<(String, Value)>),
}

/// The value of a [`Value`].
pub enum ValueView {
    Null,
    Bool(bool),
    Number(NumberView),
    String(Seq<char>),
    Array(Seq<ValueView>),
    Object(Seq<(Seq<char>, ValueView)>),
}

/// What a [`Value`] is.
pub open spec fn view_of(value: Value) -> ValueView
    decreases value,
{
    match value {
        Value::Null => ValueView::Null,
        Value::Bool(b) => ValueView::Bool(b),
        Value::Number(n) => ValueView::Number(n@),
        Value::String(s) => ValueView::String(s@),
        Value::Array(items) => ValueView::Array(
            Seq::new(
                items@.len(),
                |i: int|
                    if 0 <= i < items@.len() {
                        view_of(items@[i])
                    } else {
                        arbitrary()
                    },
            ),
        ),
        Value::Object(members) => ValueView::Object(
            Seq::new(
                members@.len(),
                |i: int|
                    if 0 <= i < members@.len() {
                        (members@[i].0@, view_of(members@[i].1))
                    } else {
                        arbitrary()
                    },
            ),
        ),
    }
}

impl View for Value {
    type V = ValueView;

    open spec fn view(&self) -> ValueView {
        view_of(*self)
    }
}

/// The values of a row of JSON values.
pub open spec fn value_views(values: Seq<Value>) -> Seq<ValueView> {
    values.map_values(|v: Value| v@)
}

/// The values of the members of an object.
pub open spec fn member_views(members: Seq<(String, Value)>) -> Seq<(Seq<char>, ValueView)> {
    members.map_values(|m: (String, Value)| (m.0@, m.1@))
}

/// The value of an array is the row of its items' values.
pub proof fn lemma_array_view(items: Vec<Value>)
    ensures
        Value::Array(items)@ == ValueView::Array(value_views(items@)),
{
    let v = Value::Array(items);
    assert forall|i: int| 0 <= i < items@.len() implies v@->Array_0[i] == #[trigger] value_views(
        items@,
    )[i] by {
        assert(v@->Array_0[i] == items@[i]@);
    }
    assert(v@->Array_0 =~= value_views(items@));
}

/// The value of an object is the row of its members' values.
pub proof fn lemma_object_view(members: Vec<(String, Value)>)
    ensures
        Value::Object(members)@ == ValueView::Object(member_views(members@)),
{
    let v = Value::Object(members);
    assert forall|i: int| 0 <= i < members@.len() implies v@->Object_0[i] == #[trigger] member_views(
        members@,
    )[i] by {
        assert(v@->Object_0[i] == (members@[i].0@, members@[i].1@));
    }
    assert(v@->Object_0 =~= member_views(members@));
}

/// The value of an optional JSON value.
pub open spec fn value_view(value: Option<Value>) -> Option<ValueView> {
    match value {
        Some(value) => Some(value@),
        None => None,
    }
}

impl Clone for Number {
    fn clone(&self) -> (n: Self)
        ensures
            n@ == self@,
    {
        match self {
            Number::Unsigned(n) => Number::Unsigned(*n),
            Number::Negative(n) => Number::Negative(*n),
            Number::Real(s) => Number::Real(s.clone()),
        }
    }
}

impl Clone for Value {
    fn clone(&self) -> (v: Self)
        ensures
            v@ == self@,
        decreases self,
    {
        match self {
            Value::Null => Value::Null,
            Value::Bool(b) => Value::Bool(*b),
            Value::Number(n) => Value::Number(n.clone()),
            Value::String(s) => Value::String(s.clone()),
            Value::Array(items) => {
                let mut copies: Vec<Value> = Vec::new();
                let mut i: usize = 0;
                while i < items.len()
                    invariant
                        *self is Array && self->Array_0 == *items,
                        i <= items@.len(),
                        copies@.len() == i,
                        forall|j: int| 0 <= j < i ==> (#[trigger] copies@[j])@ == items@[j]@,
                    decreases items@.len() - i,
                {
                    copies.push(items[i].clone());
                    i = i + 1;
                }
                let v = Value::Array(copies);
                proof {
                    lemma_array_view(copies);
                    lemma_array_view(*items);
                    assert(value_views(copies@) =~= value_views(items@));
                }
                v
            },
            Value::Object(members) => {
                let mut copies: Vec<(String, Value)> = Vec::new();
                let mut i: usize = 0;
                while i < members.len()
                    invariant
                        *self is Object && self->Object_0 == *members,
                        i <= members@.len(),
                        copies@.len() == i,
                        forall|j: int|
                            0 <= j < i ==> (#[trigger] copies@[j]).0@ == members@[j].0@ && copies@[j].1@
                                == members@[j].1@,
                    decreases members@.len() - i,
                {
                    let member = &members[i];
                    copies.push((member.0.clone(), member.1.clone()));
                    i = i + 1;
                }
                let v = Value::Object(copies);
                proof {
                    lemma_object_view(copies);
                    lemma_object_view(*members);
                    assert(member_views(copies@) =~= member_views(members@));
                }
                v
            },
        }
    }
}

/// The member of a name among members; the first counts.
pub open spec fn member(members: Seq<(Seq<char>, ValueView)>, name: Seq<char>) -> Option<ValueView>
    decreases members.len(),
{
    if members.len() == 0 {
        None
    } else if members[0].0 == name {
        Some(members[0].1)
    } else {
        member(members.drop_first(), name)
    }
}

/// The member of a name, where a value is an object that has it.
pub open spec fn get(value: ValueView, name: Seq<char>) -> Option<ValueView> {
    match value {
        ValueView::Object(members) => member(members, name),
        _ => None,
    }
}

/// The number, where a value is a whole number that is not negative.
pub open spec fn as_u64(value: ValueView) -> Option<u64> {
    match value {
        ValueView::Number(NumberView::Unsigned(n)) => Some(n),
        _ => None,
    }
}

impl Value {
    /// The member of a name, if this is an object that has it.
    pub fn get(&self, name: &str) -> (found: Option<&Value>)
        ensures
            found is Some <==> get(self@, name@) is Some,
            found matches Some(v) ==> Some(v@) == get(self@, name@),
    {
        match self {
            Value::Object(members) => {
                let ghost views = member_views(members@);
                proof {
                    lemma_object_view(*members);
                    assert(views.skip(0) =~= views);
                }
                let mut i: usize = 0;
                while i < members.len()
                    invariant
                        i <= members@.len(),
                        views == member_views(members@),
                        self@ == ValueView::Object(views),
                        member(views.skip(i as int), name@) == member(views, name@),
                    decreases members@.len() - i,
                {
                    let entry = &members[i];
                    assert(views.skip(i as int)[0] == (entry.0@, entry.1@));
                    assert(views.skip(i as int).drop_first() =~= views.skip(i + 1));
                    if text::same_text(entry.0.as_str(), name) {
                        return Some(&entry.1);
                    }
                    i = i + 1;
                }
                None
            },
            _ => None,
        }
    }

    /// The number, if this is a whole number that is not negative.
    pub fn as_u64(&self) -> (n: Option<u64>)
        ensures
            n == as_u64(self@),
    {
        match self {
            Value::Number(Number::Unsigned(n)) => Some(*n),
            _ => None,
        }
    }
}

/// The JSON values of the `serde_json` crate. They are only carried through.
#[verifier::external_type_specification]
#[verifier::external_body]
pub struct ExJson(Json);

/// A JSON value as a developer reads it.
pub uninterp spec fn debug_text(value: ValueView) -> Seq<char>;

/// Makes a `serde_json::Value`, item by item, and formats it by its `Debug`, which shows what kind
/// of value it is. A real that is not written as in JSON counts as null. All that is claimed is
/// that the text is a function of the value.
#[verifier::external_body]
fn json_form(value: &Value) -> (form: (Json, String))
    ensures
        form.1@ == debug_text(value@),
{
    let json = match value {
        Value::Null => Json::Null,
        Value::Bool(b) => Json::Bool(*b),
        Value::Number(Number::Unsigned(n)) => (*n).into(),
        Value::Number(Number::Negative(n)) => (*n).into(),
        Value::Number(Number::Real(s)) => s.parse().unwrap_or_default(),
        Value::String(s) => s.as_str().into(),
        Value::Array(items) => items.iter().map(|item| json_form(item).0).collect(),
        Value::Object(members) => members.iter().map(|m| (m.0.as_str(), json_form(&m.1).0)).collect(),
    };
    let text = format!("{:?}", json);
    (json, text)
}

/// An option as a developer reads it, given its value as one reads it.
pub open spec fn option_text(shown: Option<Seq<char>>) -> Seq<char> {
    match shown {
        Some(shown) => "Some("@ + shown + ")"@,
        None => "None"@,
    }
}

/// An optional JSON value as a developer reads it.
pub open spec fn optional_text(value: Option<ValueView>) -> Seq<char> {
    match value {
        Some(value) => option_text(Some(debug_text(value))),
        None => option_text(None),
    }
}

impl Value {
    /// The value as a developer reads it.
    pub fn debug_text(&self) -> (s: String)
        ensures
            s@ == debug_text(self@),
    {
        json_form(self).1
    }
}

/// Shows an option, given its value as a developer reads it.
pub fn show_option(shown: Option<String>) -> (s: String)
    ensures
        s@ == option_text(text::text_view(shown)),
{
    match shown {
        Some(shown) => {
            let mut s = "Some(".to_owned();
            s.append(shown.as_str());
            s.append(")");
            s
        },
        None => "None".to_owned(),
    }
}

/// An optional JSON value as a developer reads it.
pub fn debug_optional(value: &Option<Value>) -> (s: String)
    ensures
        s@ == optional_text(value_view(*value)),
{
    match value {
        Some(value) => show_option(Some(value.debug_text())),
        None => show_option(None),
    }
}

/// Of the members of an object by one name the first counts, wherever it stands; there is none if and
/// only if no member goes by the name.
pub proof fn law_first_member_counts(members: Seq<(Seq<char>, ValueView)>, name: Seq<char>, i: int)
    ensures
        0 <= i < members.len() && members[i].0 == name && (forall|j: int|
            0 <= j < i ==> (#[trigger] members[j]).0 != name) ==> get(ValueView::Object(members), name)
            == Some(members[i].1),
        get(ValueView::Object(members), name) is None <==> forall|j: int|
            0 <= j < members.len() ==> (#[trigger] members[j]).0 != name,
    decreases members.len(),
{
    if members.len() > 0 && members[0].0 != name {
        let rest = members.drop_first();
        law_first_member_counts(rest, name, i - 1);
        assert forall|j: int| 0 <= j < rest.len() implies rest[j] == members[j + 1] by {}
        assert((forall|j: int| 0 <= j < rest.len() ==> (#[trigger] rest[j]).0 != name) <==> (forall|j: int|
            0 <= j < members.len() ==> (#[trigger] members[j]).0 != name)) by {
            if forall|j: int| 0 <= j < rest.len() ==> (#[trigger] rest[j]).0 != name {
                assert forall|j: int| 0 <= j < members.len() implies (#[trigger] members[j]).0 != name by {
                    if j > 0 {
                        assert(rest[j - 1].0 != name);
                    }
                }
            }
            if forall|j: int| 0 <= j < members.len() ==> (#[trigger] members[j]).0 != name {
                assert forall|j: int| 0 <= j < rest.len() implies (#[trigger] rest[j]).0 != name by {
                    assert(members[j + 1].0 != name);
                }
            }
        }
        if 0 < i < members.len() && (forall|j: int| 0 <= j < i ==> (#[trigger] members[j]).0 != name) {
            assert forall|j: int| 0 <= j < i - 1 implies (#[trigger] rest[j]).0 != name by {
                assert(members[j + 1].0 != name);
            }
        }
    } else if members.len() > 0 {
        assert(members[0].0 == name);
    }
}

/// Only objects have members, and only whole numbers that are not negative are taken for numbers.
pub proof fn law_values_by_kind(value: ValueView, name: Seq<char>, n: u64, m: i64)
    ensures
        !(value is Object) ==> get(value, name) is None,
        as_u64(ValueView::Number(NumberView::Unsigned(n))) == Some(n),
        as_u64(ValueView::Number(NumberView::Negative(m))) is None,
        as_u64(ValueView::Number(NumberView::Real(name))) is None,
        !(value is Number) ==> as_u64(value) is None,
{
}

/// An optional value is shown in the brackets of `Some`, and nothing as `None`.
pub proof fn law_shown_option(value: ValueView)
    ensures
        optional_text(None) == "None"@,
        optional_text(Some(value)) == "Some("@ + debug_text(value) + ")"@,
        option_text(Some(debug_text(value))) == "Some("@ + debug_text(value) + ")"@,
        option_text(None) == "None"@,
{
}

/// The values of JSON values stand in their places, one for each.
pub proof fn law_json_values_in_place(row: Seq<Value>, i: int)
    requires
        0 <= i < row.len(),
    ensures
        value_views(row).len() == row.len(),
        value_views(row)[i] == row[i]@,
{
}

/// The values of the members of an object stand in the places of the members, one for each.
pub proof fn law_member_values_in_place(row: Seq<(String, Value)>, i: int)
    requires
        0 <= i < row.len(),
    ensures
        member_views(row).len() == row.len(),
        member_views(row)[i] == (row[i].0@, row[i].1@),
{
}

}
