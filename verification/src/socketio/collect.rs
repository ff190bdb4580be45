//! How the attachments of a packet come together.
use vstd::prelude::*;

use crate::engineio::packet as engine;
use crate::engineio::packet::{
    Packet as EnginePacket, PacketType as EnginePacketType, PacketView as EnginePacketView,
};
use crate::engineio::payload as bytes;
use crate::socketio::error::Error;
use crate::socketio::event::EventView;
use crate::socketio::packet::{AckId, Packet, PacketView};
use crate::socketio::payload::PayloadView;
use crate::socketio::raw;

verus! {

/// A packet some of whose attachments are still to come.
#[derive(Debug)]
pub struct Collector {
    packet: Packet,
    attachments: Vec<Vec<u8>>,
    attachments_left: u8,
}

/// The value of a [`Collector`].
pub struct CollectorView {
    pub packet: PacketView,
    /// The attachments that came.
    pub attachments: Seq<Seq<u8>>,
}

impl View for Collector {
    type V = CollectorView;

    closed spec fn view(&self) -> CollectorView {
        CollectorView { packet: self.packet@, attachments: bytes::byte_views(self.attachments@) }
    }
}

/// A packet whose attachments come together.
#[derive(Debug)]
pub enum Collected {
    /// More attachments are to come.
    Partial(Collector),
    /// The packet is whole.
    Whole(Packet),
}

/// The value of a packet whose attachments come together.
pub enum CollectedView {
    Partial(CollectorView),
    Whole(PacketView),
}

impl View for Collected {
    type V = CollectedView;

    open spec fn view(&self) -> CollectedView {
        match self {
            Collected::Partial(collector) => CollectedView::Partial(collector@),
            Collected::Whole(packet) => CollectedView::Whole(packet@),
        }
    }
}

/// A packet as it came, before its attachments.
pub open spec fn arrived(packet: PacketView) -> CollectedView {
    if packet.attachment_count == 0 {
        CollectedView::Whole(packet)
    } else {
        CollectedView::Partial(CollectorView { packet, attachments: Seq::empty() })
    }
}

/// What comes of a packet when one more `engine.io` packet came.
pub open spec fn fed(c: CollectorView, p: EnginePacketView) -> Result<CollectedView, Error> {
    if p.ptype == EnginePacketType::Message || p.ptype == EnginePacketType::MessageBinary {
        let attachments = c.attachments.push(p.data);
        if attachments.len() == c.packet.attachment_count {
            Ok(
                CollectedView::Whole(
                    PacketView { attachments: Some(attachments), ..c.packet },
                ),
            )
        } else {
            Ok(CollectedView::Partial(CollectorView { packet: c.packet, attachments }))
        }
    } else {
        Err(Error::InvalidAttachmentPacketType(engine::type_number(p.ptype)))
    }
}

/// A result by its value.
pub open spec fn collected_outcome(result: Result<Collected, Error>) -> Result<CollectedView, Error> {
    match result {
        Ok(collected) => Ok(collected@),
        Err(e) => Err(e),
    }
}

impl Collector {
    #[verifier::type_invariant]
    spec fn well_formed(self) -> bool {
        &&& self.attachments_left > 0
        &&& self.attachments_left + self.attachments@.len() == self.packet.attachment_count
    }

    /// Takes the next `engine.io` packet as an attachment.
    pub fn feed(self, next: EnginePacket) -> (result: Result<Collected, Error>)
        ensures
            collected_outcome(result) == fed(self@, next@),
    {
        proof {
            use_type_invariant(&self);
        }
        match next.ptype {
            EnginePacketType::MessageBinary | EnginePacketType::Message => {
                let Collector { packet, attachments, attachments_left } = self;
                let mut attachments = attachments;
                let ghost before = attachments@;
                attachments.push(next.data);
                assert(bytes::byte_views(attachments@) =~= bytes::byte_views(before).push(next.data@));
                assert(bytes::byte_views(attachments@).len() == attachments@.len());
                if attachments_left == 1 {
                    let Packet { ptype, nsp, data, id, attachment_count, attachments: _ } = packet;
                    let packet = Packet::new(
                        ptype,
                        nsp,
                        data,
                        id,
                        attachment_count,
                        Some(attachments),
                    );
                    Ok(Collected::Whole(packet))
                } else {
                    let attachments_left: u8 = attachments_left - 1;
                    Ok(Collected::Partial(Collector { packet, attachments, attachments_left }))
                }
            },
            _ => Err(Error::InvalidAttachmentPacketType(u8::from(next.ptype))),
        }
    }
}

/// Takes a packet as it came. Attachments are only waited for if there are any.
pub fn handle_engineio_packet(packet: Packet) -> (collected: Collected)
    ensures
        collected@ == arrived(packet@),
{
    if packet.attachment_count > 0 {
        let attachments_left: u8 = packet.attachment_count;
        let attachments: Vec<Vec<u8>> = Vec::new();
        assert(bytes::byte_views(attachments@) =~= Seq::empty());
        Collected::Partial(Collector { packet, attachments, attachments_left })
    } else {
        Collected::Whole(packet)
    }
}

/// What comes of a packet when `engine.io` packets came one after the other, up to the one that
/// makes it whole.
pub open spec fn fed_all(c: CollectedView, packets: Seq<EnginePacketView>) -> Result<CollectedView, Error>
    decreases packets.len(),
{
    if packets.len() == 0 {
        Ok(c)
    } else {
        match fed_all(c, packets.drop_last()) {
            Ok(CollectedView::Partial(collector)) => fed(collector, packets.last()),
            other => other,
        }
    }
}

/// A packet that counts its attachments gets them all back, in order, from the `engine.io` packets
/// that carry them, of either message type.
pub proof fn law_attachments_come_together(
    packet: PacketView,
    attachments: Seq<Seq<u8>>,
    packets: Seq<EnginePacketView>,
)
    requires
        packet.attachment_count == attachments.len(),
        attachments.len() > 0,
        packets.len() == attachments.len(),
        forall|i: int|
            0 <= i < packets.len() ==> (#[trigger] packets[i]).data == attachments[i] && (packets[i].ptype
                == EnginePacketType::Message || packets[i].ptype == EnginePacketType::MessageBinary),
    ensures
        fed_all(arrived(packet), packets) == Ok::<CollectedView, Error>(
            CollectedView::Whole(PacketView { attachments: Some(attachments), ..packet }),
        ),
{
    lemma_attachments_so_far(packet, attachments, packets, attachments.len() as int);
    assert(attachments.take(attachments.len() as int) =~= attachments);
    assert(packets.take(packets.len() as int) =~= packets);
}

proof fn lemma_attachments_so_far(
    packet: PacketView,
    attachments: Seq<Seq<u8>>,
    packets: Seq<EnginePacketView>,
    n: int,
)
    requires
        packet.attachment_count == attachments.len(),
        attachments.len() > 0,
        packets.len() == attachments.len(),
        0 <= n <= packets.len(),
        forall|i: int|
            0 <= i < packets.len() ==> (#[trigger] packets[i]).data == attachments[i] && (packets[i].ptype
                == EnginePacketType::Message || packets[i].ptype == EnginePacketType::MessageBinary),
    ensures
        fed_all(arrived(packet), packets.take(n)) == Ok::<CollectedView, Error>(
            if n == attachments.len() {
                CollectedView::Whole(
                    PacketView { attachments: Some(attachments.take(n)), ..packet },
                )
            } else {
                CollectedView::Partial(CollectorView { packet, attachments: attachments.take(n) })
            },
        ),
    decreases n,
{
    if n == 0 {
        assert(attachments.take(0) =~= Seq::empty());
    } else {
        lemma_attachments_so_far(packet, attachments, packets, n - 1);
        assert(packets.take(n).drop_last() =~= packets.take(n - 1));
        assert(packets.take(n).last() == packets[n - 1]);
        assert(attachments.take(n - 1).push(attachments[n - 1]) =~= attachments.take(n));
    }
}

/// The packet of an event or an acknowledgement with attachments, at most as many as a byte can
/// count, comes together again from the `engine.io` packets that carry it.
pub proof fn law_sent_packet_comes_together(
    payload: PayloadView,
    event: Option<EventView>,
    nsp: Seq<char>,
    id: Option<AckId>,
    is_ack: bool,
    encoded: Seq<u8>,
)
    requires
        0 < raw::payload_attachments(payload).len() <= 255,
    ensures
        ({
            let packet = raw::payload_packet(payload, event, nsp, id, is_ack);
            let carried = raw::engine_packets(encoded, packet.attachments);
            fed_all(arrived(PacketView { attachments: None, ..packet }), carried.skip(1)) == Ok::<
                CollectedView,
                Error,
            >(CollectedView::Whole(packet))
        }),
{
    let packet = raw::payload_packet(payload, event, nsp, id, is_ack);
    let attachments = raw::payload_attachments(payload);
    let carried = raw::engine_packets(encoded, packet.attachments).skip(1);
    assert(carried.len() == attachments.len());
    law_attachments_come_together(
        PacketView { attachments: None, ..packet },
        attachments,
        carried,
    );
}

/// A packet of another type in the place of an attachment spoils the packet.
pub proof fn law_other_packet_spoils(c: CollectorView, p: EnginePacketView)
    requires
        p.ptype != EnginePacketType::Message,
        p.ptype != EnginePacketType::MessageBinary,
    ensures
        fed(c, p) is Err,
{
}

/// A packet that counts no attachments is whole as it came, and one that counts some waits for them,
/// with none at first.
pub proof fn law_packet_arrives(packet: PacketView)
    ensures
        packet.attachment_count == 0 ==> arrived(packet) == CollectedView::Whole(packet),
        packet.attachment_count > 0 ==> (arrived(packet) matches CollectedView::Partial(c) && c.packet
            == packet && c.attachments.len() == 0),
{
}

/// Until the last attachment came a packet waits, with those that came, in order.
pub proof fn law_packet_waits_for_the_rest(packet: PacketView, packets: Seq<EnginePacketView>)
    requires
        packets.len() < packet.attachment_count,
        forall|i: int|
            0 <= i < packets.len() ==> (#[trigger] packets[i]).ptype == EnginePacketType::Message
                || packets[i].ptype == EnginePacketType::MessageBinary,
    ensures
        fed_all(arrived(packet), packets) matches Ok(CollectedView::Partial(c)) && c.packet == packet
            && c.attachments.len() == packets.len() && (forall|i: int|
            0 <= i < packets.len() ==> #[trigger] c.attachments[i] == packets[i].data),
    decreases packets.len(),
{
    if packets.len() > 0 {
        let before = packets.drop_last();
        assert forall|i: int| 0 <= i < before.len() implies (#[trigger] before[i]).ptype
            == EnginePacketType::Message || before[i].ptype == EnginePacketType::MessageBinary by {
            assert(before[i] == packets[i]);
        }
        law_packet_waits_for_the_rest(packet, before);
        assert(packets[packets.len() - 1] == packets.last());
        let so_far = fed_all(arrived(packet), before)->Ok_0->Partial_0;
        assert forall|i: int| 0 <= i < packets.len() implies #[trigger] so_far.attachments.push(
            packets.last().data,
        )[i] == packets[i].data by {
            if i < before.len() {
                assert(so_far.attachments[i] == before[i].data);
            }
        }
    }
}

/// A packet of another type is reported by the number of its type.
pub proof fn law_spoiling_packet_is_reported(c: CollectorView, p: EnginePacketView)
    ensures
        p.ptype == EnginePacketType::Message || p.ptype == EnginePacketType::MessageBinary ==> fed(
            c,
            p,
        ) is Ok,
        p.ptype == EnginePacketType::Open ==> fed(c, p) == Err::<CollectedView, Error>(
            Error::InvalidAttachmentPacketType(0),
        ),
        p.ptype == EnginePacketType::Close ==> fed(c, p) == Err::<CollectedView, Error>(
            Error::InvalidAttachmentPacketType(1),
        ),
        p.ptype == EnginePacketType::Ping ==> fed(c, p) == Err::<CollectedView, Error>(
            Error::InvalidAttachmentPacketType(2),
        ),
        p.ptype == EnginePacketType::Pong ==> fed(c, p) == Err::<CollectedView, Error>(
            Error::InvalidAttachmentPacketType(3),
        ),
        p.ptype == EnginePacketType::Upgrade ==> fed(c, p) == Err::<CollectedView, Error>(
            Error::InvalidAttachmentPacketType(5),
        ),
        p.ptype == EnginePacketType::Noop ==> fed(c, p) == Err::<CollectedView, Error>(
            Error::InvalidAttachmentPacketType(6),
        ),
{
}

}
