//! How events and acknowledgements become packets, and packets become `engine.io` packets.
use vstd::prelude::*;
use vstd::string::*;

use crate::engineio::packet as engine;
use crate::engineio::packet::{
    Packet as EnginePacket, PacketType as EnginePacketType, PacketView as EnginePacketView,
};
use crate::engineio::payload as bytes;
use crate::socketio::error::Error;
use crate::socketio::event;
use crate::socketio::event::{Event, EventView};
use crate::socketio::packet;
use crate::socketio::packet::{AckId, Packet, PacketType, PacketView};
use crate::socketio::payload;
use crate::socketio::payload::{Payload, PayloadView, RawPayload, RawPayloadView};
use crate::socketio::value;
use crate::socketio::value::{Number, NumberView, Value, ValueView};

verus! {

/// What stands in JSON for an attachment.
pub struct BinaryPlaceHolder {
    pub _placeholder: bool,
    pub num: usize,
}

/// The JSON that stands for an attachment of a number.
pub open spec fn placeholder(num: nat) -> ValueView {
    ValueView::Object(
        seq![
            ("_placeholder"@, ValueView::Bool(true)),
            ("num"@, ValueView::Number(NumberView::Unsigned(num as u64))),
        ],
    )
}

impl BinaryPlaceHolder {
    pub fn new(num: usize) -> (holder: Self)
        ensures
            holder._placeholder,
            holder.num == num,
    {
        BinaryPlaceHolder { _placeholder: true, num }
    }

    /// The placeholder as JSON.
    pub fn into_value(self) -> (v: Value)
        ensures
            v@ == ValueView::Object(
                seq![
                    ("_placeholder"@, ValueView::Bool(self._placeholder)),
                    ("num"@, ValueView::Number(NumberView::Unsigned(self.num as u64))),
                ],
            ),
    {
        let mut members: Vec<(String, Value)> = Vec::new();
        members.push(("_placeholder".to_owned(), Value::Bool(self._placeholder)));
        members.push(("num".to_owned(), Value::Number(Number::Unsigned(self.num as u64))));
        proof {
            value::lemma_object_view(members);
            assert(value::member_views(members@) =~= seq![
                ("_placeholder"@, ValueView::Bool(self._placeholder)),
                ("num"@, ValueView::Number(NumberView::Unsigned(self.num as u64))),
            ]);
        }
        Value::Object(members)
    }
}

/// The attachments among things, in order.
pub open spec fn attachments_of(items: Seq<RawPayloadView>) -> Seq<Seq<u8>>
    decreases items.len(),
{
    if items.len() == 0 {
        Seq::empty()
    } else {
        let before = attachments_of(items.drop_last());
        match items.last() {
            RawPayloadView::Binary(data) => before.push(data),
            RawPayloadView::Json(_) => before,
        }
    }
}

/// Things as JSON, with a placeholder for each attachment; the first has the given number.
pub open spec fn encoded_items(items: Seq<RawPayloadView>, start: nat) -> Seq<ValueView>
    decreases items.len(),
{
    if items.len() == 0 {
        Seq::empty()
    } else {
        let before = encoded_items(items.drop_last(), start);
        match items.last() {
            RawPayloadView::Binary(_) => before.push(
                placeholder(start + attachments_of(items.drop_last()).len()),
            ),
            RawPayloadView::Json(v) => before.push(v),
        }
    }
}

/// The name of an event as JSON, if there is an event.
pub open spec fn event_items(event: Option<EventView>) -> Seq<ValueView> {
    match event {
        Some(event) => seq![ValueView::String(event::event_name(event))],
        None => Seq::empty(),
    }
}

/// The value of an optional event.
pub open spec fn event_view(event: Option<Event>) -> Option<EventView> {
    match event {
        Some(event) => Some(event@),
        None => None,
    }
}

/// The JSON of an event or an acknowledgement.
pub open spec fn encoded_data(event: Option<EventView>, payload: PayloadView) -> ValueView {
    ValueView::Array(event_items(event) + encoded_items(payload::items_of(payload), 0))
}

/// The attachments of a payload.
pub open spec fn payload_attachments(payload: PayloadView) -> Seq<Seq<u8>> {
    attachments_of(payload::items_of(payload))
}

/// The type of the packet for a payload.
pub open spec fn packet_type(has_attachments: bool, is_ack: bool) -> PacketType {
    if is_ack {
        if has_attachments {
            PacketType::BinaryAck
        } else {
            PacketType::Ack
        }
    } else {
        if has_attachments {
            PacketType::BinaryEvent
        } else {
            PacketType::Event
        }
    }
}

/// The packet for a payload. Its count of attachments is kept in a byte.
pub open spec fn payload_packet(
    payload: PayloadView,
    event: Option<EventView>,
    nsp: Seq<char>,
    id: Option<AckId>,
    is_ack: bool,
) -> PacketView {
    let attachments = payload_attachments(payload);
    PacketView {
        ptype: packet_type(attachments.len() > 0, is_ack),
        nsp,
        data: Some(encoded_data(event, payload)),
        id,
        attachment_count: (attachments.len() % 256) as u8,
        attachments: Some(attachments),
    }
}

/// A packet without data.
pub open spec fn plain_packet(ptype: PacketType, nsp: Seq<char>) -> PacketView {
    PacketView { ptype, nsp, data: None, id: None, attachment_count: 0, attachments: None }
}

/// The `engine.io` packets that carry a packet, given its text: a message, and one packet for each
/// attachment.
pub open spec fn engine_packets(
    encoded: Seq<u8>,
    attachments: Option<Seq<Seq<u8>>>,
) -> Seq<EnginePacketView> {
    let head = seq![EnginePacketView { ptype: EnginePacketType::Message, data: encoded }];
    match attachments {
        None => head,
        Some(attachments) => head + attachments.map_values(
            |data: Seq<u8>| EnginePacketView { ptype: EnginePacketType::MessageBinary, data },
        ),
    }
}

/// The functions by which a connection makes its packets.
pub struct RawSocket {}

impl RawSocket {
    /// Puts an attachment behind attachments, and a placeholder for it behind JSON.
    pub fn process_binary(data: &mut Vec<Value>, bin_data: Vec<u8>, attachments: &mut Vec<Vec<u8>>)
        ensures
            value::value_views(final(data)@) == value::value_views(old(data)@).push(
                placeholder(old(attachments)@.len()),
            ),
            bytes::byte_views(final(attachments)@) == bytes::byte_views(old(attachments)@).push(
                bin_data@,
            ),
    {
        let ghost before = data@;
        let ghost before_attachments = attachments@;
        let place_holder = BinaryPlaceHolder::new(attachments.len());
        data.push(place_holder.into_value());
        attachments.push(bin_data);
        assert(value::value_views(data@) =~= value::value_views(before).push(
            placeholder(before_attachments.len()),
        ));
        assert(bytes::byte_views(attachments@) =~= bytes::byte_views(before_attachments).push(
            bin_data@,
        ));
    }

    /// Puts what a payload holds behind JSON and attachments.
    pub fn process_payload(data: &mut Vec<Value>, payload: Payload, attachments: &mut Vec<Vec<u8>>)
        ensures
            value::value_views(final(data)@) == value::value_views(old(data)@) + encoded_items(
                payload::items_of(payload@),
                old(attachments)@.len(),
            ),
            bytes::byte_views(final(attachments)@) == bytes::byte_views(old(attachments)@)
                + payload_attachments(payload@),
    {
        let items: Vec<RawPayload> = match payload {
            Payload::Binary(bin_data) => vec![RawPayload::Binary(bin_data)],
            Payload::Json(value) => vec![RawPayload::Json(value)],
            Payload::Multi(payloads) => payloads,
        };
        let ghost views = payload::items_of(payload@);
        assert(payload::raw_views(items@) =~= views);
        let ghost data_before = value::value_views(data@);
        let ghost attachments_before = bytes::byte_views(attachments@);
        let ghost start = attachments@.len();
        let mut i: usize = 0;
        assert(data_before + encoded_items(views.take(0), start) =~= data_before);
        assert(attachments_before + attachments_of(views.take(0)) =~= attachments_before);
        while i < items.len()
            invariant
                i <= items@.len(),
                views == payload::raw_views(items@),
                start == attachments_before.len(),
                value::value_views(data@) == data_before + encoded_items(views.take(i as int), start),
                bytes::byte_views(attachments@) == attachments_before + attachments_of(
                    views.take(i as int),
                ),
            decreases items@.len() - i,
        {
            let ghost now = views.take(i as int);
            proof {
                assert(views.take(i + 1).drop_last() =~= now);
                assert(views.take(i + 1).last() == items@[i as int]@);
                assert(attachments@.len() == bytes::byte_views(attachments@).len());
            }
            let ghost data_now = value::value_views(data@);
            let ghost attachments_now = bytes::byte_views(attachments@);
            match &items[i] {
                RawPayload::Binary(bin) => {
                    let copy = bin.clone();
                    assert(copy@ =~= bin@);
                    Self::process_binary(data, copy, attachments);
                    assert(value::value_views(data@) =~= data_before + encoded_items(
                        views.take(i + 1),
                        start,
                    ));
                    assert(bytes::byte_views(attachments@) =~= attachments_before + attachments_of(
                        views.take(i + 1),
                    ));
                },
                RawPayload::Json(value) => {
                    let ghost values_before = data@;
                    data.push(value.clone());
                    assert(value::value_views(data@) =~= value::value_views(values_before).push(
                        value@,
                    ));
                    assert(value::value_views(data@) =~= data_before + encoded_items(
                        views.take(i + 1),
                        start,
                    ));
                },
            }
            i = i + 1;
        }
        assert(views.take(i as int) =~= views);
    }

    /// The JSON and the attachments of an event or an acknowledgement.
    pub fn encode_data(event: Option<Event>, payload: Payload) -> (encoded: (Value, Vec<Vec<u8>>))
        ensures
            encoded.0@ == encoded_data(event_view(event), payload@),
            bytes::byte_views(encoded.1@) == payload_attachments(payload@),
    {
        let mut attachments: Vec<Vec<u8>> = Vec::new();
        let mut data: Vec<Value> = Vec::new();
        match event {
            Some(event) => {
                data.push(Value::String(String::from(event)));
            },
            None => {},
        }
        assert(value::value_views(data@) =~= event_items(event_view(event)));
        Self::process_payload(&mut data, payload, &mut attachments);
        assert(bytes::byte_views(attachments@) =~= payload_attachments(payload@));
        proof {
            value::lemma_array_view(data);
        }
        (Value::Array(data), attachments)
    }

    /// Returns a packet for a payload, could be used for both binary and non binary events and
    /// acks.
    pub fn build_packet_for_payload(
        payload: Payload,
        event: Option<Event>,
        nsp: &str,
        id: Option<AckId>,
        is_ack: bool,
    ) -> (packet: Packet)
        ensures
            packet@ == payload_packet(payload@, event_view(event), nsp@, id, is_ack),
    {
        let (data, attachments) = Self::encode_data(event, payload);
        let has_attachments = attachments.len() > 0;
        let ptype = match has_attachments {
            false => if is_ack {
                PacketType::Ack
            } else {
                PacketType::Event
            },
            true => if is_ack {
                PacketType::BinaryAck
            } else {
                PacketType::BinaryEvent
            },
        };
        assert(attachments@.len() == bytes::byte_views(attachments@).len());
        let count: u8 = (attachments.len() % 256) as u8;
        Packet::new(ptype, nsp.to_owned(), Some(data), id, count, Some(attachments))
    }

    /// The packet that answers an event.
    pub fn ack(nsp: &str, id: AckId, data: Payload) -> (packet: Packet)
        ensures
            packet@ == payload_packet(data@, None, nsp@, Some(id), true),
    {
        Self::build_packet_for_payload(data, None, nsp, Some(id), true)
    }

    /// The packet of an event.
    pub fn emit(nsp: &str, event: Event, data: Payload) -> (packet: Packet)
        ensures
            packet@ == payload_packet(data@, Some(event@), nsp@, None, false),
    {
        Self::build_packet_for_payload(data, Some(event), nsp, None, false)
    }

    /// The packet by which a server accepts a client.
    pub fn handshake(nsp: &str, data: Value) -> (packet: Packet)
        ensures
            packet@ == (PacketView {
                data: Some(data@),
                ..plain_packet(PacketType::Connect, nsp@)
            }),
    {
        Packet::new(PacketType::Connect, nsp.to_owned(), Some(data), None, 0, None)
    }

    /// The `engine.io` packets that carry a packet, given its text. They are to be sent with
    /// nothing in between; nothing is sent while the `engine.io` connection is not open.
    pub fn send(
        engine_connected: bool,
        encoded: Vec<u8>,
        attachments: Option<Vec<Vec<u8>>>,
    ) -> (packets: Result<Vec<EnginePacket>, Error>)
        ensures
            !engine_connected ==> packets == Err::<Vec<EnginePacket>, Error>(
                Error::IllegalActionBeforeOpen(),
            ),
            engine_connected ==> (packets matches Ok(p) && engine::packet_views(p@) == engine_packets(
                encoded@,
                packet::attachment_views(attachments),
            )),
    {
        if !engine_connected {
            return Err(Error::IllegalActionBeforeOpen());
        }
        // the packet, encoded as an engine.io message packet
        let mut packets: Vec<EnginePacket> = Vec::new();
        packets.push(EnginePacket::new(EnginePacketType::Message, encoded));
        match attachments {
            None => {
                assert(engine::packet_views(packets@) =~= engine_packets(encoded@, None));
            },
            Some(attachments) => {
                let mut i: usize = 0;
                while i < attachments.len()
                    invariant
                        i <= attachments@.len(),
                        packets@.len() == i + 1,
                        packets@[0]@ == (EnginePacketView {
                            ptype: EnginePacketType::Message,
                            data: encoded@,
                        }),
                        forall|j: int|
                            0 <= j < i ==> (#[trigger] packets@[j + 1])@ == (EnginePacketView {
                                ptype: EnginePacketType::MessageBinary,
                                data: attachments@[j]@,
                            }),
                    decreases attachments@.len() - i,
                {
                    let attachment = attachments[i].clone();
                    assert(attachment@ =~= attachments@[i as int]@);
                    packets.push(EnginePacket::new(EnginePacketType::MessageBinary, attachment));
                    i = i + 1;
                }
                let ghost views = bytes::byte_views(attachments@);
                let ghost want = engine_packets(encoded@, Some(views));
                assert forall|j: int| 0 <= j < want.len() implies engine::packet_views(packets@)[j]
                    == want[j] by {
                    if j > 0 {
                        assert(packets@[(j - 1) + 1]@ == want[j]);
                    }
                }
                assert(engine::packet_views(packets@) =~= want);
            },
        }
        Ok(packets)
    }

    /// Whether an `engine.io` packet that came carries a packet.
    pub fn carries_packet(ptype: EnginePacketType) -> (carries: bool)
        ensures
            carries == (ptype == EnginePacketType::Message || ptype == EnginePacketType::MessageBinary),
    {
        ptype == EnginePacketType::Message || ptype == EnginePacketType::MessageBinary
    }
}

/// The attachments of things are found part by part: an attachment is itself, and JSON holds none.
pub proof fn law_attachments_by_parts(
    a: Seq<RawPayloadView>,
    b: Seq<RawPayloadView>,
    data: Seq<u8>,
    value: ValueView,
)
    ensures
        attachments_of(a + b) == attachments_of(a) + attachments_of(b),
        attachments_of(seq![RawPayloadView::Binary(data)]) == seq![data],
        attachments_of(seq![RawPayloadView::Json(value)]) == Seq::<Seq<u8>>::empty(),
        attachments_of(Seq::empty()) == Seq::<Seq<u8>>::empty(),
    decreases b.len(),
{
    let one = seq![RawPayloadView::Binary(data)];
    let other = seq![RawPayloadView::Json(value)];
    assert(one.drop_last() =~= Seq::empty());
    assert(other.drop_last() =~= Seq::empty());
    assert(attachments_of(one.drop_last()) =~= Seq::<Seq<u8>>::empty());
    assert(one.last() == RawPayloadView::Binary(data));
    assert(attachments_of(one) =~= seq![data]);
    assert(attachments_of(other.drop_last()) =~= Seq::<Seq<u8>>::empty());
    assert(other.last() == RawPayloadView::Json(value));
    if b.len() == 0 {
        assert(a + b =~= a);
    } else {
        law_attachments_by_parts(a, b.drop_last(), data, value);
        assert((a + b).drop_last() =~= a + b.drop_last());
        assert((a + b).last() == b.last());
        assert(attachments_of(a + b) =~= attachments_of(a) + attachments_of(b));
    }
}

/// Things are encoded one by one, each in its place: JSON as it is, and an attachment as the
/// placeholder whose number counts the attachments before it, from the first number on.
pub proof fn law_things_are_encoded(items: Seq<RawPayloadView>, start: nat, i: int)
    requires
        0 <= i < items.len(),
    ensures
        encoded_items(items, start).len() == items.len(),
        items[i] matches RawPayloadView::Json(v) ==> encoded_items(items, start)[i] == v,
        items[i] is Binary ==> encoded_items(items, start)[i] == placeholder(
            start + attachments_of(items.take(i)).len(),
        ),
    decreases items.len(),
{
    let before = items.drop_last();
    if i == before.len() {
        assert(items.take(i) =~= before);
        lemma_encoded_count(before, start);
    } else {
        law_things_are_encoded(before, start, i);
        assert(before.take(i) =~= items.take(i));
        assert(before[i] == items[i]);
    }
}

proof fn lemma_encoded_count(items: Seq<RawPayloadView>, start: nat)
    ensures
        encoded_items(items, start).len() == items.len(),
    decreases items.len(),
{
    if items.len() > 0 {
        lemma_encoded_count(items.drop_last(), start);
    }
}

/// A placeholder is an object of two members: the mark, and the number.
pub proof fn law_placeholder_members(num: nat)
    requires
        num <= u64::MAX,
    ensures
        placeholder(num) matches ValueView::Object(members) && {
            &&& members.len() == 2
            &&& members[0] == ("_placeholder"@, ValueView::Bool(true))
            &&& members[1].0 == "num"@
            &&& members[1].1 matches ValueView::Number(NumberView::Unsigned(n)) && n == num
        },
{
}

/// What the packet for a payload holds: the namespace and the number that were given; the attachments
/// of the payload, counted up to what a byte holds; the type for an event or an acknowledgement, with
/// or without attachments; and an array of the event's name, if there is one, and the encoded things.
pub proof fn law_packet_for_payload(
    payload: PayloadView,
    event: Option<EventView>,
    nsp: Seq<char>,
    id: Option<AckId>,
    is_ack: bool,
)
    ensures
        ({
            let p = payload_packet(payload, event, nsp, id, is_ack);
            let attachments = attachments_of(payload::items_of(payload));
            let things = encoded_items(payload::items_of(payload), 0);
            &&& p.nsp == nsp
            &&& p.id == id
            &&& p.attachments == Some(attachments)
            &&& attachments.len() <= 255 ==> p.attachment_count == attachments.len()
            &&& attachments.len() == 0 && !is_ack ==> p.ptype == PacketType::Event
            &&& attachments.len() == 0 && is_ack ==> p.ptype == PacketType::Ack
            &&& attachments.len() > 0 && !is_ack ==> p.ptype == PacketType::BinaryEvent
            &&& attachments.len() > 0 && is_ack ==> p.ptype == PacketType::BinaryAck
            &&& p.data matches Some(ValueView::Array(values)) && match event {
                Some(event) => values.len() == things.len() + 1 && values[0] == ValueView::String(
                    event::event_name(event),
                ) && values.skip(1) == things,
                None => values == things,
            }
        }),
{
    let values = encoded_data(event, payload)->Array_0;
    let things = encoded_items(payload::items_of(payload), 0);
    match event {
        Some(_) => {
            assert(values.skip(1) =~= things);
        },
        None => {
            assert(values =~= things);
        },
    }
}

/// A packet without data has its type and namespace, and nothing else.
pub proof fn law_plain_packet(ptype: PacketType, nsp: Seq<char>)
    ensures
        plain_packet(ptype, nsp).ptype == ptype,
        plain_packet(ptype, nsp).nsp == nsp,
        plain_packet(ptype, nsp).data is None,
        plain_packet(ptype, nsp).id is None,
        plain_packet(ptype, nsp).attachments is None,
        plain_packet(ptype, nsp).attachment_count == 0,
{
}

/// A packet is carried by one message with its text, and behind it one packet of binary data for each
/// attachment, in order.
pub proof fn law_carried_packet(encoded: Seq<u8>, attachments: Seq<Seq<u8>>, i: int)
    ensures
        engine_packets(encoded, None).len() == 1,
        engine_packets(encoded, None)[0].ptype == EnginePacketType::Message,
        engine_packets(encoded, None)[0].data == encoded,
        engine_packets(encoded, Some(attachments)).len() == attachments.len() + 1,
        engine_packets(encoded, Some(attachments))[0].ptype == EnginePacketType::Message,
        engine_packets(encoded, Some(attachments))[0].data == encoded,
        0 <= i < attachments.len() ==> engine_packets(encoded, Some(attachments))[i + 1].ptype
            == EnginePacketType::MessageBinary && engine_packets(encoded, Some(attachments))[i + 1].data
            == attachments[i],
{
}

}
