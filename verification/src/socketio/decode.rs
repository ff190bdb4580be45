//! What packets carry for the callbacks.
use vstd::prelude::*;
use vstd::string::*;

use crate::engineio::payload as bytes;
use crate::socketio::error::Error;
use crate::socketio::event;
use crate::socketio::event::{Event, EventView};
use crate::socketio::packet;
use crate::socketio::packet::Packet;
use crate::socketio::payload;
use crate::socketio::payload::{Payload, PayloadView, RawPayload, RawPayloadView};
use crate::socketio::raw;
use crate::socketio::value;
use crate::socketio::value::{NumberView, Value, ValueView};

verus! {

/// Whether a JSON value is taken for a placeholder.
pub open spec fn is_placeholder(v: ValueView) -> bool {
    value::get(v, "_placeholder"@) is Some
}

/// What a JSON value stands for: the attachment whose place it holds, or itself. None where the
/// attachment is not there.
pub open spec fn decoded_item(
    v: ValueView,
    attachments: Option<Seq<Seq<u8>>>,
) -> Option<RawPayloadView> {
    if !is_placeholder(v) {
        Some(RawPayloadView::Json(v))
    } else {
        match value::get(v, "num"@) {
            None => None,
            Some(num) => match value::as_u64(num) {
                None => None,
                Some(num) => match attachments {
                    None => None,
                    Some(attachments) => if (num as usize) < attachments.len() {
                        Some(RawPayloadView::Binary(attachments[(num as usize) as int]))
                    } else {
                        None
                    },
                },
            },
        }
    }
}

/// Whether each of some JSON values stands for something.
pub open spec fn all_decoded(values: Seq<ValueView>, attachments: Option<Seq<Seq<u8>>>) -> bool {
    forall|i: int| 0 <= i < values.len() ==> decoded_item(#[trigger] values[i], attachments) is Some
}

/// What JSON values stand for.
pub open spec fn decoded_items(
    values: Seq<ValueView>,
    attachments: Option<Seq<Seq<u8>>>,
) -> Seq<RawPayloadView> {
    values.map_values(|v: ValueView| decoded_item(v, attachments)->Some_0)
}

/// The JSON values that carry the payload: all but the first, where that is the event.
pub open spec fn payload_values(values: Seq<ValueView>, skip_event: bool) -> Seq<ValueView> {
    if skip_event && values.len() > 0 {
        values.skip(1)
    } else {
        values
    }
}

/// The payload that JSON values and attachments make, if each placeholder has its attachment.
pub open spec fn decoded_binary(
    values: Seq<ValueView>,
    attachments: Option<Seq<Seq<u8>>>,
    skip_event: bool,
) -> Option<PayloadView> {
    let values = payload_values(values, skip_event);
    if all_decoded(values, attachments) {
        Some(payload::payload_of(decoded_items(values, attachments)))
    } else {
        None
    }
}

/// The payload of a binary packet.
pub open spec fn binary_payload(
    data: Option<ValueView>,
    attachments: Option<Seq<Seq<u8>>>,
    skip_event: bool,
) -> Option<PayloadView> {
    match data {
        Some(ValueView::Array(values)) => decoded_binary(values, attachments, skip_event),
        _ => None,
    }
}

/// The payload of a packet without attachments.
pub open spec fn event_payload(data: Option<ValueView>, skip_event: bool) -> Option<PayloadView> {
    match data {
        Some(ValueView::Array(values)) => if values.len() == 0 {
            None
        } else if values.len() == 1 {
            Some(PayloadView::Json(values[0]))
        } else {
            Some(payload::payload_of(payload::json_items(payload_values(values, skip_event))))
        },
        _ => None,
    }
}

/// The event of a packet without attachments: the first of at least two JSON values, if it is a
/// text.
pub open spec fn event_of_data(values: Seq<ValueView>) -> EventView {
    if values.len() > 1 {
        match values[0] {
            ValueView::String(name) => event::event_of(name),
            _ => EventView::Message,
        }
    } else {
        EventView::Message
    }
}

/// The event of a binary packet: its text, or the first of its JSON values, if that is a text.
pub open spec fn event_of_binary(data: Option<ValueView>) -> EventView {
    match data {
        Some(ValueView::String(name)) => event::event_of(name),
        Some(ValueView::Array(values)) => if values.len() > 0 {
            match values[0] {
                ValueView::String(name) => event::event_of(name),
                _ => EventView::Message,
            }
        } else {
            EventView::Message
        },
        _ => EventView::Message,
    }
}

/// Reads what a JSON value stands for.
fn decode_item(v: &Value, attachments: &Option<Vec<Vec<u8>>>) -> (item: Result<RawPayload, Error>)
    ensures
        match item {
            Ok(item) => decoded_item(v@, packet::attachment_views(*attachments)) == Some(item@),
            Err(e) => e == Error::InvalidPacket() && decoded_item(
                v@,
                packet::attachment_views(*attachments),
            ) is None,
        },
{
    if v.get("_placeholder").is_none() {
        return Ok(RawPayload::Json(v.clone()));
    }
    let num = match v.get("num") {
        Some(num) => num,
        None => {
            return Err(Error::InvalidPacket());
        },
    };
    let index: usize = match num.as_u64() {
        Some(num) => num as usize,
        None => {
            return Err(Error::InvalidPacket());
        },
    };
    match attachments {
        None => Err(Error::InvalidPacket()),
        Some(attachments) => {
            assert(bytes::byte_views(attachments@).len() == attachments@.len());
            if index < attachments.len() {
                let data = attachments[index].clone();
                assert(data@ =~= attachments@[index as int]@);
                Ok(RawPayload::Binary(data))
            } else {
                Err(Error::InvalidPacket())
            }
        },
    }
}

/// Reads the payload that JSON values and attachments make.
pub fn decode_binary(
    values: &Vec<Value>,
    attachments: &Option<Vec<Vec<u8>>>,
    skip_event: bool,
) -> (payload: Result<Payload, Error>)
    ensures
        match payload {
            Ok(payload) => decoded_binary(
                value::value_views(values@),
                packet::attachment_views(*attachments),
                skip_event,
            ) == Some(payload@),
            Err(e) => e == Error::InvalidPacket() && decoded_binary(
                value::value_views(values@),
                packet::attachment_views(*attachments),
                skip_event,
            ) is None,
        },
{
    let ghost views = payload_values(value::value_views(values@), skip_event);
    let ghost atts = packet::attachment_views(*attachments);
    let start: usize = if skip_event && values.len() > 0 {
        1
    } else {
        0
    };
    assert(views =~= value::value_views(values@).skip(start as int));
    let mut items: Vec<RawPayload> = Vec::new();
    let mut i: usize = start;
    while i < values.len()
        invariant
            start <= i <= values@.len(),
            views == payload_values(value::value_views(values@), skip_event),
            views == value::value_views(values@).skip(start as int),
            atts == packet::attachment_views(*attachments),
            items@.len() == i - start,
            forall|j: int|
                0 <= j < i - start ==> decoded_item(#[trigger] views[j], atts) == Some(items@[j]@),
        decreases values@.len() - i,
    {
        assert(views[i - start] == values@[i as int]@);
        match decode_item(&values[i], attachments) {
            Ok(item) => {
                items.push(item);
            },
            Err(e) => {
                assert(!all_decoded(views, atts));
                return Err(e);
            },
        }
        i = i + 1;
    }
    assert(payload::raw_views(items@) =~= decoded_items(views, atts));
    Ok(payload::into_payload(items))
}

/// Reads the payload of a binary packet.
pub fn decode_binary_payload(
    data: &Option<Value>,
    attachments: &Option<Vec<Vec<u8>>>,
    skip_event: bool,
) -> (payload: Option<Payload>)
    ensures
        payload::payload_view(payload) == binary_payload(
            value::value_view(*data),
            packet::attachment_views(*attachments),
            skip_event,
        ),
{
    match data {
        Some(Value::Array(values)) => {
            proof {
                value::lemma_array_view(*values);
            }
            match decode_binary(values, attachments, skip_event) {
                Ok(payload) => Some(payload),
                Err(_) => None,
            }
        },
        _ => None,
    }
}

/// Reads the payload of a packet without attachments.
pub fn decode_event_payload(packet: &Packet, skip_event: bool) -> (payload: Option<Payload>)
    ensures
        payload::payload_view(payload) == event_payload(packet@.data, skip_event),
{
    match &packet.data {
        Some(Value::Array(values)) => {
            let ghost views = value::value_views(values@);
            proof {
                value::lemma_array_view(*values);
            }
            if values.len() == 0 {
                None
            } else if values.len() == 1 {
                assert(views[0] == values@[0]@);
                Some(Payload::Json(values[0].clone()))
            } else {
                let start: usize = if skip_event {
                    1
                } else {
                    0
                };
                assert(views.skip(start as int) =~= payload_values(views, skip_event));
                let items = payload::json_items_from(values, start);
                Some(payload::into_payload(items))
            }
        },
        _ => None,
    }
}

/// Reads the event of a packet without attachments.
pub fn event_of_values(values: &Vec<Value>) -> (event: Event)
    ensures
        event@ == event_of_data(value::value_views(values@)),
{
    if values.len() > 1 {
        assert(value::value_views(values@)[0] == values@[0]@);
        match &values[0] {
            Value::String(name) => Event::from(name.clone()),
            _ => Event::from("message"),
        }
    } else {
        Event::Message
    }
}

/// Reads the event of a binary packet.
pub fn event_of_binary_data(data: &Option<Value>) -> (event: Event)
    ensures
        event@ == event_of_binary(value::value_view(*data)),
{
    match data {
        Some(Value::String(name)) => Event::from(name.clone()),
        Some(Value::Array(values)) => {
            proof {
                value::lemma_array_view(*values);
            }
            if values.len() > 0 {
                assert(value::value_views(values@)[0] == values@[0]@);
                match &values[0] {
                    Value::String(name) => Event::from(name.clone()),
                    _ => Event::Message,
                }
            } else {
                Event::Message
            }
        },
        _ => Event::Message,
    }
}

/// Whether no JSON among things is taken for a placeholder.
pub open spec fn is_unambiguous(items: Seq<RawPayloadView>) -> bool {
    forall|i: int|
        0 <= i < items.len() ==> ((#[trigger] items[i]) matches RawPayloadView::Json(v)
            ==> !is_placeholder(v))
}

/// A placeholder is taken for one, and names the attachment of its number.
proof fn lemma_placeholder(num: nat, attachments: Seq<Seq<u8>>)
    requires
        num < attachments.len() <= usize::MAX,
    ensures
        decoded_item(raw::placeholder(num), Some(attachments)) == Some(
            RawPayloadView::Binary(attachments[num as int]),
        ),
{
    reveal_strlit("_placeholder");
    reveal_strlit("num");
    let members = raw::placeholder(num)->Object_0;
    assert("_placeholder"@.len() == 12 && "num"@.len() == 3);
    assert(value::member(members, "_placeholder"@) is Some);
    assert(members.drop_first()[0].0 == "num"@);
    assert(value::member(members.drop_first(), "num"@) == Some(
        ValueView::Number(NumberView::Unsigned(num as u64)),
    ));
    assert(value::member(members, "num"@) == value::member(members.drop_first(), "num"@));
}

/// What things are encoded to stands for them, given attachments that start with theirs.
proof fn lemma_items_are_read_back(items: Seq<RawPayloadView>, attachments: Seq<Seq<u8>>)
    requires
        is_unambiguous(items),
        raw::attachments_of(items).len() <= attachments.len() <= usize::MAX,
        raw::attachments_of(items) == attachments.take(raw::attachments_of(items).len() as int),
    ensures
        raw::encoded_items(items, 0).len() == items.len(),
        forall|i: int|
            0 <= i < items.len() ==> decoded_item(
                #[trigger] raw::encoded_items(items, 0)[i],
                Some(attachments),
            ) == Some(items[i]),
    decreases items.len(),
{
    if items.len() > 0 {
        let before = items.drop_last();
        assert(is_unambiguous(before)) by {
            assert forall|i: int| 0 <= i < before.len() implies ((#[trigger] before[i]) matches
                RawPayloadView::Json(v) ==> !is_placeholder(v)) by {
                assert(before[i] == items[i]);
            }
        }
        let n = raw::attachments_of(before).len() as int;
        assert(raw::attachments_of(before) =~= raw::attachments_of(items).take(n));
        assert(raw::attachments_of(before) =~= attachments.take(n));
        lemma_items_are_read_back(before, attachments);
        let encoded = raw::encoded_items(items, 0);
        assert forall|i: int| 0 <= i < items.len() implies decoded_item(
            #[trigger] encoded[i],
            Some(attachments),
        ) == Some(items[i]) by {
            if i < before.len() {
                assert(encoded[i] == raw::encoded_items(before, 0)[i]);
                assert(items[i] == before[i]);
            } else {
                match items.last() {
                    RawPayloadView::Binary(data) => {
                        assert(raw::attachments_of(items)[n] == data);
                        lemma_placeholder(n as nat, attachments);
                    },
                    RawPayloadView::Json(v) => {
                        assert(!is_placeholder(items[i]->Json_0));
                    },
                }
            }
        }
    }
}

/// The values that carry the payload of a packet which was made for it are its encoded things.
proof fn lemma_encoded_values(event: Option<EventView>, payload: PayloadView)
    ensures
        payload_values(raw::encoded_data(event, payload)->Array_0, event is Some)
            == raw::encoded_items(payload::items_of(payload), 0),
{
    let encoded = raw::encoded_items(payload::items_of(payload), 0);
    assert(payload_values(raw::encoded_data(event, payload)->Array_0, event is Some) =~= encoded);
}

/// The payload of an event or of an acknowledgement that has attachments is read back from its
/// packet, with one thing standing for itself, unless some JSON in it looks like a placeholder.
pub proof fn law_binary_payload_is_read_back(event: Option<EventView>, payload: PayloadView)
    requires
        is_unambiguous(payload::items_of(payload)),
        raw::payload_attachments(payload).len() <= usize::MAX,
    ensures
        binary_payload(
            Some(raw::encoded_data(event, payload)),
            Some(raw::payload_attachments(payload)),
            event is Some,
        ) == Some(payload::payload_of(payload::items_of(payload))),
{
    let items = payload::items_of(payload);
    let attachments = raw::payload_attachments(payload);
    assert(attachments.take(attachments.len() as int) =~= attachments);
    lemma_items_are_read_back(items, attachments);
    lemma_encoded_values(event, payload);
    let values = raw::encoded_items(items, 0);
    assert(all_decoded(values, Some(attachments)));
    assert(decoded_items(values, Some(attachments)) =~= items);
}

/// Things without attachments are encoded to their JSON.
proof fn lemma_json_items(items: Seq<RawPayloadView>)
    requires
        raw::attachments_of(items).len() == 0,
    ensures
        payload::json_items(raw::encoded_items(items, 0)) == items,
    decreases items.len(),
{
    if items.len() > 0 {
        lemma_json_items(items.drop_last());
        assert(payload::json_items(raw::encoded_items(items, 0)) =~= payload::json_items(
            raw::encoded_items(items.drop_last(), 0),
        ).push(items.last()));
        assert(items.drop_last().push(items.last()) =~= items);
    } else {
        assert(payload::json_items(raw::encoded_items(items, 0)) =~= items);
    }
}

/// The payload of an event or of an acknowledgement without attachments is read back from its
/// packet, with one thing standing for itself, unless it holds nothing.
pub proof fn law_json_payload_is_read_back(event: Option<EventView>, payload: PayloadView)
    requires
        raw::payload_attachments(payload).len() == 0,
        payload::items_of(payload).len() > 0,
    ensures
        event_payload(Some(raw::encoded_data(event, payload)), event is Some) == Some(
            payload::payload_of(payload::items_of(payload)),
        ),
{
    let items = payload::items_of(payload);
    lemma_json_items(items);
    lemma_encoded_values(event, payload);
    let values = raw::encoded_data(event, payload)->Array_0;
    assert(raw::encoded_items(items, 0).len() == items.len()) by {
        assert(payload::json_items(raw::encoded_items(items, 0)).len() == items.len());
    }
    if values.len() == 1 {
        assert(values =~= raw::encoded_items(items, 0));
        assert(items[0] == payload::json_items(raw::encoded_items(items, 0))[0]);
    }
}

/// The event is read back from its packet, whether there are attachments or not, unless it is a
/// custom one that goes by a common name; without attachments the payload must hold something.
pub proof fn law_event_is_read_back(event: EventView, payload: PayloadView)
    requires
        event::is_proper(event),
    ensures
        event_of_binary(Some(raw::encoded_data(Some(event), payload))) == event,
        raw::encoded_items(payload::items_of(payload), 0).len() > 0 ==> event_of_data(
            raw::encoded_data(Some(event), payload)->Array_0,
        ) == event,
{
    event::law_event_is_found_by_name(event);
}

/// A JSON value without a member `_placeholder` stands for itself. One with it stands for the
/// attachment of its member `num`, if that is a number below the count of the attachments, and else
/// for nothing.
pub proof fn law_value_stands_for(v: ValueView, attachments: Seq<Seq<u8>>, n: u64)
    ensures
        value::get(v, "_placeholder"@) is None ==> decoded_item(v, Some(attachments)) == Some(
            RawPayloadView::Json(v),
        ) && decoded_item(v, None) == Some(RawPayloadView::Json(v)),
        value::get(v, "_placeholder"@) is Some ==> {
            &&& decoded_item(v, None) is None
            &&& value::get(v, "num"@) is None ==> decoded_item(v, Some(attachments)) is None
            &&& value::get(v, "num"@) matches Some(m) ==> (!(m is Number) || !(m->Number_0 is Unsigned)
                ==> decoded_item(v, Some(attachments)) is None)
            &&& value::get(v, "num"@) == Some(ValueView::Number(NumberView::Unsigned(n))) && n
                <= usize::MAX ==> if n < attachments.len() {
                decoded_item(v, Some(attachments)) == Some(
                    RawPayloadView::Binary(attachments[n as int]),
                )
            } else {
                decoded_item(v, Some(attachments)) is None
            }
        },
{
}

/// The payload of a binary packet is there if and only if its data are an array whose values, all but
/// the event, each stand for something; it then holds what they stand for, in order.
pub proof fn law_binary_payload_by_values(
    values: Seq<ValueView>,
    attachments: Option<Seq<Seq<u8>>>,
    skip_event: bool,
    i: int,
)
    ensures
        ({
            let first = if skip_event && values.len() > 0 {
                1int
            } else {
                0int
            };
            let read = binary_payload(Some(ValueView::Array(values)), attachments, skip_event);
            &&& read is Some <==> forall|j: int|
                first <= j < values.len() ==> decoded_item(#[trigger] values[j], attachments) is Some
            &&& read matches Some(payload) ==> payload::items_of(payload).len() == values.len() - first
            &&& read matches Some(payload) ==> (first <= i < values.len() ==> decoded_item(
                values[i],
                attachments,
            ) == Some(payload::items_of(payload)[i - first]))
            &&& read matches Some(payload) ==> (payload is Multi <==> values.len() - first != 1)
        }),
        binary_payload(None, attachments, skip_event) is None,
{
    let first = if skip_event && values.len() > 0 {
        1int
    } else {
        0int
    };
    let left = payload_values(values, skip_event);
    assert(left =~= values.skip(first));
    let read = binary_payload(Some(ValueView::Array(values)), attachments, skip_event);
    payload::law_items_of_payload(decoded_items(left, attachments));
    if read is Some {
        assert forall|j: int| first <= j < values.len() implies decoded_item(
            #[trigger] values[j],
            attachments,
        ) is Some by {
            assert(left[j - first] == values[j]);
        }
        if first <= i < values.len() {
            assert(left[i - first] == values[i]);
        }
    }
    if forall|j: int| first <= j < values.len() ==> decoded_item(#[trigger] values[j], attachments) is Some {
        assert forall|j: int| 0 <= j < left.len() implies decoded_item(#[trigger] left[j], attachments) is Some by {
            assert(left[j] == values[j + first]);
        }
    }
}

/// The payload of a packet without attachments is there if and only if its data are an array that
/// holds something. A lone value is the payload; of more, all but the event are, in order.
pub proof fn law_event_payload_by_values(values: Seq<ValueView>, skip_event: bool, i: int)
    ensures
        ({
            let first = if skip_event {
                1int
            } else {
                0int
            };
            let read = event_payload(Some(ValueView::Array(values)), skip_event);
            &&& read is Some <==> values.len() > 0
            &&& values.len() == 1 ==> read == Some(PayloadView::Json(values[0]))
            &&& values.len() > 1 ==> (read matches Some(payload) && payload::items_of(payload).len()
                == values.len() - first && (payload is Multi <==> values.len() - first != 1) && (first <= i
                < values.len() ==> payload::items_of(payload)[i - first] == RawPayloadView::Json(values[i])))
        }),
        event_payload(None, skip_event) is None,
{
    let first = if skip_event {
        1int
    } else {
        0int
    };
    if values.len() > 1 {
        let left = payload_values(values, skip_event);
        assert(left =~= values.skip(first));
        payload::law_items_of_payload(payload::json_items(left));
        if first <= i < values.len() {
            assert(left[i - first] == values[i]);
        }
    }
}

/// Data that are no array carry no payload.
pub proof fn law_only_arrays_carry(
    data: ValueView,
    attachments: Option<Seq<Seq<u8>>>,
    skip_event: bool,
)
    requires
        !(data is Array),
    ensures
        binary_payload(Some(data), attachments, skip_event) is None,
        event_payload(Some(data), skip_event) is None,
{
}

/// The event of a packet is the one of the text that stands first, and the message event where no text
/// does. Without attachments a lone value names no event; with them it does, and so does a bare text.
pub proof fn law_event_of_packet(values: Seq<ValueView>, name: Seq<char>, data: ValueView)
    ensures
        values.len() > 1 && values[0] == ValueView::String(name) ==> event_of_data(values)
            == event::event_of(name),
        values.len() > 1 && !(values[0] is String) ==> event_of_data(values) is Message,
        values.len() <= 1 ==> event_of_data(values) is Message,
        values.len() > 0 && values[0] == ValueView::String(name) ==> event_of_binary(
            Some(ValueView::Array(values)),
        ) == event::event_of(name),
        values.len() > 0 && !(values[0] is String) ==> event_of_binary(
            Some(ValueView::Array(values)),
        ) is Message,
        values.len() == 0 ==> event_of_binary(Some(ValueView::Array(values))) is Message,
        event_of_binary(Some(ValueView::String(name))) == event::event_of(name),
        !(data is Array) && !(data is String) ==> event_of_binary(Some(data)) is Message,
        event_of_binary(None) is Message,
{
}

}
