//! What events and acknowledgements carry.
use vstd::prelude::*;

use crate::socketio::value;
use crate::socketio::value::{Value, ValueView};

verus! {

/// One thing that an event carries.
#[derive(Debug, PartialEq, Eq)]
pub enum RawPayload {
    Binary(Vec<u8>),
    Json(Value),
}

/// The value of a [`RawPayload`].
pub enum RawPayloadView {
    Binary(Seq<u8>),
    Json(ValueView),
}

impl View for RawPayload {
    type V = RawPayloadView;

    open spec fn view(&self) -> RawPayloadView {
        match self {
            RawPayload::Binary(data) => RawPayloadView::Binary(data@),
            RawPayload::Json(value) => RawPayloadView::Json(value@),
        }
    }
}

/// The values of a row of things.
pub open spec fn raw_views(items: Seq<RawPayload>) -> Seq<RawPayloadView> {
    items.map_values(|p: RawPayload| p@)
}

/// What an event carries.
#[derive(Debug, PartialEq, Eq)]
pub enum Payload {
    Binary(Vec<u8>),
    Json(Value),
    Multi(Vec<RawPayload>),
}

/// The value of a [`Payload`].
pub enum PayloadView {
    Binary(Seq<u8>),
    Json(ValueView),
    Multi(Seq<RawPayloadView>),
}

impl View for Payload {
    type V = PayloadView;

    open spec fn view(&self) -> PayloadView {
        match self {
            Payload::Binary(data) => PayloadView::Binary(data@),
            Payload::Json(value) => PayloadView::Json(value@),
            Payload::Multi(items) => PayloadView::Multi(raw_views(items@)),
        }
    }
}

/// The value of an optional payload.
pub open spec fn payload_view(payload: Option<Payload>) -> Option<PayloadView> {
    match payload {
        Some(payload) => Some(payload@),
        None => None,
    }
}

impl Clone for RawPayload {
    fn clone(&self) -> (p: Self)
        ensures
            p@ == self@,
    {
        match self {
            RawPayload::Binary(data) => {
                let copy = data.clone();
                assert(copy@ =~= data@);
                RawPayload::Binary(copy)
            },
            RawPayload::Json(value) => RawPayload::Json(value.clone()),
        }
    }
}

impl Clone for Payload {
    fn clone(&self) -> (p: Self)
        ensures
            p@ == self@,
    {
        match self {
            Payload::Binary(data) => {
                let copy = data.clone();
                assert(copy@ =~= data@);
                Payload::Binary(copy)
            },
            Payload::Json(value) => Payload::Json(value.clone()),
            Payload::Multi(items) => {
                let mut copies: Vec<RawPayload> = Vec::new();
                let mut i: usize = 0;
                while i < items.len()
                    invariant
                        i <= items@.len(),
                        copies@.len() == i,
                        forall|j: int| 0 <= j < i ==> (#[trigger] copies@[j])@ == items@[j]@,
                    decreases items@.len() - i,
                {
                    copies.push(items[i].clone());
                    i = i + 1;
                }
                assert(raw_views(copies@) =~= raw_views(items@));
                Payload::Multi(copies)
            },
        }
    }
}

/// A payload of one thing.
pub open spec fn single(item: RawPayloadView) -> PayloadView {
    match item {
        RawPayloadView::Binary(data) => PayloadView::Binary(data),
        RawPayloadView::Json(value) => PayloadView::Json(value),
    }
}

/// The things that a payload holds.
pub open spec fn items_of(payload: PayloadView) -> Seq<RawPayloadView> {
    match payload {
        PayloadView::Binary(data) => seq![RawPayloadView::Binary(data)],
        PayloadView::Json(value) => seq![RawPayloadView::Json(value)],
        PayloadView::Multi(items) => items,
    }
}

/// The payload that things make: one thing stands for itself.
pub open spec fn payload_of(items: Seq<RawPayloadView>) -> PayloadView {
    if items.len() == 1 {
        single(items[0])
    } else {
        PayloadView::Multi(items)
    }
}

/// Things of JSON.
pub open spec fn json_items(values: Seq<ValueView>) -> Seq<RawPayloadView> {
    values.map_values(|v: ValueView| RawPayloadView::Json(v))
}

impl vstd::std_specs::convert::FromSpecImpl<RawPayload> for Payload {
    open spec fn obeys_from_spec() -> bool {
        true
    }

    open spec fn from_spec(item: RawPayload) -> Payload {
        match item {
            RawPayload::Binary(data) => Payload::Binary(data),
            RawPayload::Json(value) => Payload::Json(value),
        }
    }
}

impl From<RawPayload> for Payload {
    fn from(item: RawPayload) -> (payload: Payload) {
        match item {
            RawPayload::Binary(data) => Payload::Binary(data),
            RawPayload::Json(value) => Payload::Json(value),
        }
    }
}

impl vstd::std_specs::convert::FromSpecImpl<Value> for RawPayload {
    open spec fn obeys_from_spec() -> bool {
        true
    }

    open spec fn from_spec(value: Value) -> RawPayload {
        RawPayload::Json(value)
    }
}

impl From<Value> for RawPayload {
    fn from(value: Value) -> (item: RawPayload) {
        RawPayload::Json(value)
    }
}

impl vstd::std_specs::convert::FromSpecImpl<Value> for Payload {
    open spec fn obeys_from_spec() -> bool {
        true
    }

    open spec fn from_spec(value: Value) -> Payload {
        Payload::Json(value)
    }
}

impl From<Value> for Payload {
    fn from(value: Value) -> (payload: Payload) {
        Payload::Json(value)
    }
}

impl vstd::std_specs::convert::FromSpecImpl<Option<Value>> for Payload {
    open spec fn obeys_from_spec() -> bool {
        true
    }

    open spec fn from_spec(value: Option<Value>) -> Payload {
        match value {
            Some(value) => Payload::Json(value),
            None => Payload::Json(Value::Null),
        }
    }
}

impl From<Option<Value>> for Payload {
    fn from(value: Option<Value>) -> (payload: Payload) {
        match value {
            Some(value) => Payload::Json(value),
            None => Payload::Json(Value::Null),
        }
    }
}

/// Makes a payload of things: one thing stands for itself.
pub fn into_payload(items: Vec<RawPayload>) -> (payload: Payload)
    ensures
        payload@ == payload_of(raw_views(items@)),
{
    let mut items = items;
    if items.len() == 1 {
        match items.pop() {
            Some(item) => Payload::from(item),
            None => Payload::Multi(Vec::new()),
        }
    } else {
        Payload::Multi(items)
    }
}

/// Makes things of JSON values, from the given one on.
pub fn json_items_from(values: &Vec<Value>, start: usize) -> (items: Vec<RawPayload>)
    requires
        start <= values@.len(),
    ensures
        raw_views(items@) == json_items(value::value_views(values@).skip(start as int)),
{
    let mut items: Vec<RawPayload> = Vec::new();
    let mut i: usize = start;
    while i < values.len()
        invariant
            start <= i <= values@.len(),
            items@.len() == i - start,
            forall|j: int|
                0 <= j < i - start ==> (#[trigger] items@[j])@ == RawPayloadView::Json(
                    values@[start + j]@,
                ),
        decreases values@.len() - i,
    {
        items.push(RawPayload::from(values[i].clone()));
        i = i + 1;
    }
    assert(raw_views(items@) =~= json_items(value::value_views(values@).skip(start as int)));
    items
}

/// A payload is what its things make, unless it is a row of just one.
pub proof fn law_payload_of_items(payload: PayloadView)
    requires
        payload matches PayloadView::Multi(items) ==> items.len() != 1,
    ensures
        payload_of(items_of(payload)) == payload,
{
}

/// Things make a payload that holds them, in order. It is a row unless there is just one thing, which
/// then stands for itself.
pub proof fn law_items_of_payload(items: Seq<RawPayloadView>)
    ensures
        items_of(payload_of(items)) == items,
        payload_of(items) is Multi <==> items.len() != 1,
{
    if items.len() == 1 {
        assert(items_of(payload_of(items)) =~= items);
    }
}

/// A payload of one kind holds that one thing, and a row its things.
pub proof fn law_payload_holds(data: Seq<u8>, value: ValueView, items: Seq<RawPayloadView>)
    ensures
        items_of(PayloadView::Binary(data)) == seq![RawPayloadView::Binary(data)],
        items_of(PayloadView::Json(value)) == seq![RawPayloadView::Json(value)],
        items_of(PayloadView::Multi(items)) == items,
        single(RawPayloadView::Binary(data)) == PayloadView::Binary(data),
        single(RawPayloadView::Json(value)) == PayloadView::Json(value),
{
}

/// Each JSON value makes one thing, in its place.
pub proof fn law_json_things(values: Seq<ValueView>, i: int)
    requires
        0 <= i < values.len(),
    ensures
        json_items(values).len() == values.len(),
        json_items(values)[i] == RawPayloadView::Json(values[i]),
{
}

/// The values of things stand in the places of the things, one for each.
pub proof fn law_raw_values_in_place(row: Seq<RawPayload>, i: int)
    requires
        0 <= i < row.len(),
    ensures
        raw_views(row).len() == row.len(),
        raw_views(row)[i] == row[i]@,
{
}

}
