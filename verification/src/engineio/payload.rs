//! Payloads: rows of packets with a separator between them.
use std::collections::VecDeque;

use vstd::prelude::*;
use vstd::string::*;
use vstd::utf8::*;

use crate::binary;
use crate::engineio::error::Error;
use crate::engineio::packet;
use crate::engineio::packet::{Packet, PacketType, PacketView, BASE64_MARK, SEPARATOR};
use crate::text;

verus! {

/// The pieces of a byte string between the separators.
pub open spec fn pieces(s: Seq<u8>) -> Seq<Seq<u8>>
    decreases s.len(),
{
    if s.len() == 0 {
        seq![Seq::<u8>::empty()]
    } else {
        let before = pieces(s.drop_last());
        if s.last() == SEPARATOR {
            before.push(Seq::empty())
        } else {
            before.drop_last().push(before.last().push(s.last()))
        }
    }
}

/// Byte strings one after the other, with a separator between any two.
pub open spec fn joined(parts: Seq<Seq<u8>>) -> Seq<u8>
    decreases parts.len(),
{
    if parts.len() == 0 {
        Seq::empty()
    } else if parts.len() == 1 {
        parts[0]
    } else {
        joined(parts.drop_last()).push(SEPARATOR) + parts.last()
    }
}

/// Whether no part holds the separator.
pub open spec fn separable(parts: Seq<Seq<u8>>) -> bool {
    forall|i: int| 0 <= i < parts.len() ==> !(#[trigger] parts[i]).contains(SEPARATOR)
}

/// The packets that byte strings encode, or the error of the first that encodes none.
pub open spec fn decoded_packets(parts: Seq<Seq<u8>>) -> Result<Seq<PacketView>, Error>
    decreases parts.len(),
{
    if parts.len() == 0 {
        Ok(Seq::empty())
    } else {
        match decoded_packets(parts.drop_last()) {
            Err(e) => Err(e),
            Ok(before) => match packet::decoded_packet(parts.last()) {
                Err(e) => Err(e),
                Ok(p) => Ok(before.push(p)),
            },
        }
    }
}

/// The packets of a payload.
pub open spec fn decoded_payload(bytes: Seq<u8>) -> Result<Seq<PacketView>, Error> {
    decoded_packets(pieces(bytes))
}

/// The encodings of packets.
pub open spec fn encoded_packets(packets: Seq<PacketView>) -> Seq<Seq<u8>> {
    packets.map_values(|p: PacketView| packet::encoded_packet(p))
}

/// The encoding of a payload.
pub open spec fn encoded_payload(packets: Seq<PacketView>) -> Seq<u8> {
    joined(encoded_packets(packets))
}

/// Whether a packet can stand in a payload: it is complete, and its encoding holds no separator.
pub open spec fn fits_payload(p: PacketView) -> bool {
    &&& packet::is_complete(p)
    &&& p.ptype != PacketType::MessageBinary ==> !p.data.contains(SEPARATOR)
}

/// A row of packets, at least one, each of which can stand in a payload.
#[derive(Debug)]
pub struct Payload {
    packets: Vec<Packet>,
}

impl View for Payload {
    type V = Seq<PacketView>;

    closed spec fn view(&self) -> Seq<PacketView> {
        packet::packet_views(self.packets@)
    }
}

impl Payload {
    #[verifier::type_invariant]
    spec fn well_formed(self) -> bool {
        &&& self.packets@.len() > 0
        &&& forall|i: int| 0 <= i < self.packets@.len() ==> fits_payload((#[trigger] self.packets@[i])@)
    }

    /// The number of packets.
    pub fn len(&self) -> (n: usize)
        ensures
            n == self@.len(),
            n > 0,
    {
        proof {
            use_type_invariant(self);
        }
        self.packets.len()
    }

    /// The packet at an index.
    pub fn index(&self, index: usize) -> (p: &Packet)
        requires
            index < self@.len(),
        ensures
            p@ == self@[index as int],
            fits_payload(p@),
    {
        proof {
            use_type_invariant(self);
        }
        &self.packets[index]
    }

    /// The packets, in order.
    pub fn into_packets(self) -> (packets: Vec<Packet>)
        ensures
            packet::packet_views(packets@) == self@,
            packets@.len() > 0,
    {
        proof {
            use_type_invariant(&self);
        }
        self.packets
    }

    /// Hands out the packets one by one.
    pub fn into_iter(self) -> (iter: IntoIter)
        ensures
            iter@ == self@,
    {
        let mut left = self.packets;
        let ghost all = left@;
        let mut packets: VecDeque<Packet> = VecDeque::new();
        assert(left@ + packets@ =~= all);
        while left.len() > 0
            invariant
                left@ + packets@ == all,
            decreases left@.len(),
        {
            let ghost before = left@ + packets@;
            match left.pop() {
                Some(packet) => packets.push_front(packet),
                None => {},
            }
            assert(left@ + packets@ =~= before);
        }
        assert(packets@ =~= all);
        IntoIter { packets }
    }
}

/// The packets of a payload that were not handed out yet.
#[derive(Debug)]
pub struct IntoIter {
    packets: VecDeque<Packet>,
}

impl View for IntoIter {
    type V = Seq<PacketView>;

    closed spec fn view(&self) -> Seq<PacketView> {
        packet::packet_views(self.packets@)
    }
}

impl IntoIter {
    /// The next packet, if one is left.
    pub fn next(&mut self) -> (packet: Option<Packet>)
        ensures
            packet is Some <==> old(self)@.len() > 0,
            packet matches Some(p) ==> p@ == old(self)@[0] && final(self)@ == old(self)@.drop_first(),
            packet is None ==> final(self)@ == old(self)@,
    {
        let ghost before = self.packets@;
        let packet = self.packets.pop_front();
        assert(before.len() > 0 ==> packet::packet_views(self.packets@) =~= packet::packet_views(
            before,
        ).drop_first());
        packet
    }
}

/// A payload decoding's result by its value.
pub open spec fn payload_outcome(result: Result<Payload, Error>) -> Result<Seq<PacketView>, Error> {
    match result {
        Ok(p) => Ok(p@),
        Err(e) => Err(e),
    }
}

proof fn lemma_pieces_not_empty(s: Seq<u8>)
    ensures
        pieces(s).len() > 0,
    decreases s.len(),
{
    if s.len() > 0 {
        lemma_pieces_not_empty(s.drop_last());
    }
}

/// No piece holds the separator.
pub proof fn law_pieces_are_separable(s: Seq<u8>)
    ensures
        separable(pieces(s)),
    decreases s.len(),
{
    if s.len() > 0 {
        law_pieces_are_separable(s.drop_last());
        lemma_pieces_not_empty(s.drop_last());
        let before = pieces(s.drop_last());
        assert forall|i: int| 0 <= i < pieces(s).len() implies !(#[trigger] pieces(s)[i]).contains(
            SEPARATOR,
        ) by {
            if s.last() != SEPARATOR && i == pieces(s).len() - 1 {
                let p = pieces(s)[i];
                assert(!before.last().contains(SEPARATOR));
                assert forall|j: int| 0 <= j < p.len() implies p[j] != SEPARATOR by {
                    if j < before.last().len() {
                        assert(before.last()[j] == p[j]);
                    }
                }
            } else if i < before.len() {
                assert(!before[i].contains(SEPARATOR));
            }
        }
    }
}

/// The pieces, joined, make the byte string.
pub proof fn law_pieces_join(s: Seq<u8>)
    ensures
        joined(pieces(s)) == s,
    decreases s.len(),
{
    if s.len() > 0 {
        law_pieces_join(s.drop_last());
        lemma_pieces_not_empty(s.drop_last());
        let before = pieces(s.drop_last());
        if s.last() == SEPARATOR {
            assert(pieces(s).drop_last() =~= before);
            assert(joined(pieces(s)) =~= s);
        } else {
            assert(pieces(s).drop_last() =~= before.drop_last());
            assert(joined(pieces(s)) =~= joined(before).push(s.last()));
            assert(joined(pieces(s)) =~= s);
        }
    }
}

/// Appending a byte string without separators makes the last piece longer.
proof fn lemma_pieces_extend(s: Seq<u8>, t: Seq<u8>)
    requires
        !t.contains(SEPARATOR),
    ensures
        pieces(s + t) == pieces(s).drop_last().push(pieces(s).last() + t),
    decreases t.len(),
{
    lemma_pieces_not_empty(s);
    if t.len() == 0 {
        assert(s + t =~= s);
        assert(pieces(s).last() + t =~= pieces(s).last());
        assert(pieces(s).drop_last().push(pieces(s).last()) =~= pieces(s));
    } else {
        let u = t.drop_last();
        assert forall|i: int| 0 <= i < u.len() implies u[i] != SEPARATOR by {
            assert(t.contains(t[i]));
        }
        lemma_pieces_extend(s, u);
        assert((s + t).drop_last() =~= s + u);
        assert(t.contains(t.last()));
        assert((pieces(s).last() + u).push(t.last()) =~= pieces(s).last() + t);
        assert(pieces(s + t) =~= pieces(s).drop_last().push(pieces(s).last() + t));
    }
}

/// Parts without separators are the pieces of their join.
pub proof fn law_joined_parts_are_pieces(parts: Seq<Seq<u8>>)
    requires
        parts.len() > 0,
        separable(parts),
    ensures
        pieces(joined(parts)) == parts,
    decreases parts.len(),
{
    if parts.len() == 1 {
        lemma_pieces_extend(Seq::empty(), parts[0]);
        assert(Seq::<u8>::empty() + parts[0] =~= parts[0]);
        assert(pieces(parts[0]) =~= parts);
    } else {
        let before = parts.drop_last();
        assert(separable(before)) by {
            assert forall|i: int| 0 <= i < before.len() implies !(#[trigger] before[i]).contains(
                SEPARATOR,
            ) by {
                assert(before[i] == parts[i]);
            }
        }
        law_joined_parts_are_pieces(before);
        let head = joined(before).push(SEPARATOR);
        assert(head.drop_last() =~= joined(before));
        assert(pieces(head) =~= before.push(Seq::empty()));
        lemma_pieces_extend(head, parts.last());
        assert(Seq::<u8>::empty() + parts.last() =~= parts.last());
        assert(pieces(joined(parts)) =~= parts);
    }
}

/// Where every part decodes, the packets are those of the parts, one for one.
pub proof fn law_decoded_packets_of_parts(parts: Seq<Seq<u8>>, packets: Seq<PacketView>)
    requires
        parts.len() == packets.len(),
        forall|i: int|
            0 <= i < parts.len() ==> packet::decoded_packet(#[trigger] parts[i]) == Ok::<
                PacketView,
                Error,
            >(packets[i]),
    ensures
        decoded_packets(parts) == Ok::<Seq<PacketView>, Error>(packets),
    decreases parts.len(),
{
    if parts.len() > 0 {
        law_decoded_packets_of_parts(parts.drop_last(), packets.drop_last());
        assert(packets.drop_last().push(packets.last()) =~= packets);
    } else {
        assert(packets =~= Seq::empty());
    }
}

/// The first part that does not decode decides the error.
proof fn lemma_first_error(parts: Seq<Seq<u8>>, n: int)
    requires
        0 <= n <= parts.len(),
        decoded_packets(parts.take(n)) is Err,
    ensures
        decoded_packets(parts) == decoded_packets(parts.take(n)),
    decreases parts.len() - n,
{
    if n == parts.len() {
        assert(parts.take(n) =~= parts);
    } else {
        assert(parts.take(n + 1).drop_last() =~= parts.take(n));
        lemma_first_error(parts, n + 1);
    }
}

/// The pieces of a longer byte string start with the finished pieces of a prefix.
proof fn lemma_pieces_of_prefix(s: Seq<u8>, n: int)
    requires
        0 <= n <= s.len(),
    ensures
        pieces(s).len() >= pieces(s.take(n)).len(),
        pieces(s).take(pieces(s.take(n)).len() - 1) == pieces(s.take(n)).drop_last(),
    decreases s.len(),
{
    lemma_pieces_not_empty(s.take(n));
    if n == s.len() {
        assert(s.take(n) =~= s);
        assert(pieces(s).take(pieces(s).len() - 1) =~= pieces(s).drop_last());
    } else {
        let t = s.drop_last();
        lemma_pieces_of_prefix(t, n);
        assert(t.take(n) =~= s.take(n));
        lemma_pieces_not_empty(t);
        let k = pieces(s.take(n)).len() - 1;
        assert(pieces(s).take(k) =~= pieces(t).take(k));
    }
}

/// What decodes can stand in a payload, if it held no separator.
proof fn lemma_decoded_fits(bytes: Seq<u8>)
    requires
        !bytes.contains(SEPARATOR),
        packet::decoded_packet(bytes) is Ok,
    ensures
        fits_payload(packet::decoded_packet(bytes)->Ok_0),
{
    let p = packet::decoded_packet(bytes)->Ok_0;
    if p.ptype != PacketType::MessageBinary {
        assert forall|i: int| 0 <= i < p.data.len() implies p.data[i] != SEPARATOR by {
            assert(bytes.contains(bytes[i + 1]));
        }
    }
}

impl vstd::std_specs::convert::TryFromSpecImpl<Vec<u8>> for Payload {
    open spec fn obeys_try_from_spec() -> bool {
        false
    }

    open spec fn try_from_spec(payload: Vec<u8>) -> Result<Payload, Error> {
        arbitrary()
    }
}

/// Decodes one piece of a payload.
fn decode_piece(payload: &Vec<u8>, from: usize, to: usize) -> (p: Result<Packet, Error>)
    requires
        from <= to <= payload@.len(),
    ensures
        packet::packet_outcome(p) == packet::decoded_packet(payload@.subrange(from as int, to as int)),
{
    let piece = vstd::slice::slice_to_vec(
        vstd::slice::slice_subrange(payload.as_slice(), from, to),
    );
    Packet::try_from(piece)
}

impl TryFrom<Vec<u8>> for Payload {
    type Error = Error;

    /// Decodes a `payload` which in the `engine.io` context means a chain of normal
    /// packets separated by a certain SEPARATOR, in this case the delimiter `\x1e`.
    fn try_from(payload: Vec<u8>) -> (result: Result<Payload, Error>)
        ensures
            payload_outcome(result) == decoded_payload(payload@),
    {
        let ghost all = pieces(payload@);
        let mut packets: Vec<Packet> = Vec::new();
        let mut last_index: usize = 0;
        let mut i: usize = 0;
        assert(pieces(payload@.take(0)) =~= seq![payload@.subrange(0, 0)]) by {
            assert(payload@.take(0) =~= Seq::empty());
            assert(payload@.subrange(0, 0) =~= Seq::empty());
        }
        assert(packet::packet_views(packets@) =~= Seq::empty());
        while i < payload.len()
            invariant
                last_index <= i <= payload@.len(),
                all == pieces(payload@),
                pieces(payload@.take(i as int)).len() == packets@.len() + 1,
                pieces(payload@.take(i as int)).last() == payload@.subrange(
                    last_index as int,
                    i as int,
                ),
                decoded_packets(pieces(payload@.take(i as int)).drop_last()) == Ok::<
                    Seq<PacketView>,
                    Error,
                >(packet::packet_views(packets@)),
                forall|j: int|
                    0 <= j < packets@.len() ==> fits_payload((#[trigger] packets@[j])@),
            decreases payload@.len() - i,
        {
            let ghost here = pieces(payload@.take(i as int));
            let ghost next = pieces(payload@.take(i + 1));
            assert(payload@.take(i + 1).drop_last() =~= payload@.take(i as int));
            if payload[i] == SEPARATOR {
                let decoded = decode_piece(&payload, last_index, i);
                proof {
                    assert(next.drop_last() =~= here);
                    lemma_pieces_of_prefix(payload@, i + 1);
                    law_pieces_are_separable(payload@.take(i as int));
                }
                match decoded {
                    Ok(p) => {
                        proof {
                            lemma_decoded_fits(here.last());
                        }
                        let ghost before = packets@;
                        packets.push(p);
                        assert(packet::packet_views(packets@) =~= packet::packet_views(before).push(
                            p@,
                        ));
                    },
                    Err(e) => {
                        proof {
                            assert(decoded_packets(here) == Err::<Seq<PacketView>, Error>(e));
                            lemma_first_error(all, here.len() as int);
                        }
                        return Err(e);
                    },
                }
                last_index = i + 1;
                assert(payload@.subrange(last_index as int, i + 1) =~= Seq::empty());
            } else {
                assert(next.drop_last() =~= here.drop_last());
                assert(next.last() =~= payload@.subrange(last_index as int, i + 1));
            }
            i = i + 1;
        }
        // push the last packet as well
        assert(payload@.take(i as int) =~= payload@);
        match decode_piece(&payload, last_index, payload.len()) {
            Ok(p) => {
                proof {
                    law_pieces_are_separable(payload@);
                    lemma_decoded_fits(all.last());
                }
                let ghost before = packets@;
                packets.push(p);
                assert(packet::packet_views(packets@) =~= packet::packet_views(before).push(p@));
                Ok(Payload { packets })
            },
            Err(e) => Err(e),
        }
    }
}

impl vstd::std_specs::convert::TryFromSpecImpl<Payload> for Vec<u8> {
    open spec fn obeys_try_from_spec() -> bool {
        false
    }

    open spec fn try_from_spec(packets: Payload) -> Result<Vec<u8>, Error> {
        arbitrary()
    }
}

impl TryFrom<Payload> for Vec<u8> {
    type Error = Error;

    /// Encodes a payload. Payload in the `engine.io` context means a chain of
    /// normal `packets` separated by a SEPARATOR, in this case the delimiter
    /// `\x1e`. It always succeeds, and what it gives decodes to the payload.
    fn try_from(packets: Payload) -> (result: Result<Vec<u8>, Error>)
        ensures
            result is Ok,
            result->Ok_0@ == encoded_payload(packets@),
            decoded_payload(result->Ok_0@) == Ok::<Seq<PacketView>, Error>(packets@),
    {
        proof {
            use_type_invariant(&packets);
        }
        let ghost views = packets@;
        let ghost parts = encoded_packets(views);
        let list = packets.packets;
        let mut buf: Vec<u8> = Vec::new();
        let mut i: usize = 0;
        while i < list.len()
            invariant
                i <= list@.len(),
                list@.len() > 0,
                views == packet::packet_views(list@),
                parts == encoded_packets(views),
                forall|j: int| 0 <= j < list@.len() ==> fits_payload((#[trigger] list@[j])@),
                i == 0 ==> buf@.len() == 0,
                i > 0 ==> buf@ == joined(parts.take(i as int)).push(SEPARATOR),
                forall|j: int|
                    0 <= j < i ==> packet::decoded_packet(#[trigger] parts[j]) == Ok::<
                        PacketView,
                        Error,
                    >(views[j]),
                forall|j: int| 0 <= j < i ==> !(#[trigger] parts[j]).contains(SEPARATOR),
            decreases list@.len() - i,
        {
            let packet = list[i].clone();
            let ghost view = packet@;
            assert(view == views[i as int]);
            let bytes: Vec<u8> = Vec::from(packet);
            assert(bytes@ == parts[i as int]);
            let ghost before = buf@;
            buf.extend_from_slice(bytes.as_slice());
            buf.push(SEPARATOR);
            proof {
                assert(parts.take(i + 1).drop_last() =~= parts.take(i as int));
                assert(parts.take(i + 1).last() == parts[i as int]);
                assert(buf@ =~= joined(parts.take(i + 1)).push(SEPARATOR));
                if view.ptype != PacketType::MessageBinary {
                    assert forall|j: int| 0 <= j < bytes@.len() implies bytes@[j] != SEPARATOR by {
                        if j > 0 {
                            assert(view.data.contains(view.data[j - 1]));
                        }
                    }
                }
            }
            i = i + 1;
        }
        // remove the last separator
        let len: usize = buf.len();
        buf.truncate(len - 1);
        proof {
            assert(parts.take(i as int) =~= parts);
            assert(buf@ =~= joined(parts));
            law_joined_parts_are_pieces(parts);
            law_decoded_packets_of_parts(parts, views);
        }
        Ok(buf)
    }
}

/// A payload whose pieces all start with the digit of a type is the encoding of the packets that
/// it decodes to.
pub proof fn law_text_payload_is_written_back(bytes: Seq<u8>)
    requires
        decoded_payload(bytes) is Ok,
        forall|i: int|
            0 <= i < pieces(bytes).len() ==> (#[trigger] pieces(bytes)[i]).len() > 0 && 0x30
                <= pieces(bytes)[i][0] <= 0x36,
    ensures
        encoded_payload(decoded_payload(bytes)->Ok_0) == bytes,
{
    let parts = pieces(bytes);
    lemma_decoded_packets_elements(parts);
    let packets = decoded_packets(parts)->Ok_0;
    assert forall|i: int| 0 <= i < parts.len() implies encoded_packets(packets)[i] == parts[i] by {
        packet::law_text_packet_is_written_back(parts[i]);
    }
    assert(encoded_packets(packets) =~= parts);
    law_pieces_join(bytes);
}

proof fn lemma_decoded_packets_elements(parts: Seq<Seq<u8>>)
    requires
        decoded_packets(parts) is Ok,
    ensures
        decoded_packets(parts)->Ok_0.len() == parts.len(),
        forall|i: int|
            0 <= i < parts.len() ==> packet::decoded_packet(#[trigger] parts[i]) == Ok::<
                PacketView,
                Error,
            >(decoded_packets(parts)->Ok_0[i]),
    decreases parts.len(),
{
    if parts.len() > 0 {
        lemma_decoded_packets_elements(parts.drop_last());
        assert forall|i: int| 0 <= i < parts.len() implies packet::decoded_packet(
            #[trigger] parts[i],
        ) == Ok::<PacketView, Error>(decoded_packets(parts)->Ok_0[i]) by {
            if i < parts.len() - 1 {
                assert(parts.drop_last()[i] == parts[i]);
            }
        }
    }
}

/// Texts one after the other, with a separator between any two.
pub open spec fn joined_text(parts: Seq<Seq<char>>) -> Seq<char>
    decreases parts.len(),
{
    if parts.len() == 0 {
        Seq::empty()
    } else if parts.len() == 1 {
        parts[0]
    } else {
        joined_text(parts.drop_last()).push('\u{1e}') + parts.last()
    }
}

/// The text in which an item waits for a polling client: base64 if it starts with the mark of
/// binary data, itself if it is text, and nothing otherwise.
pub open spec fn polling_piece(item: Seq<u8>) -> Seq<char> {
    if item[0] == BASE64_MARK {
        binary::base64_text(item)
    } else if valid_utf8(item) {
        decode_utf8(item)
    } else {
        Seq::empty()
    }
}

/// The texts of the items that wait for a polling client.
pub open spec fn polling_pieces(items: Seq<Seq<u8>>) -> Seq<Seq<char>> {
    items.map_values(|item: Seq<u8>| polling_piece(item))
}

/// The body made of texts, if there is any text in it.
pub open spec fn polling_body(texts: Seq<Seq<char>>) -> Option<Seq<char>> {
    if joined_text(texts).len() == 0 {
        None
    } else {
        Some(joined_text(texts))
    }
}

/// The body for a polling client: none where an item is empty.
pub open spec fn polling_payload(items: Seq<Seq<u8>>) -> Option<Seq<char>> {
    if exists|i: int| 0 <= i < items.len() && (#[trigger] items[i]).len() == 0 {
        None
    } else {
        polling_body(polling_pieces(items))
    }
}

/// Whether there is a body for a polling client: there are items, none of them is empty, and one
/// that is alone is marked as binary data or is text.
pub open spec fn has_polling_body(items: Seq<Seq<u8>>) -> bool {
    &&& items.len() > 0
    &&& forall|i: int| 0 <= i < items.len() ==> (#[trigger] items[i]).len() > 0
    &&& items.len() == 1 ==> items[0][0] == BASE64_MARK || valid_utf8(items[0])
}

/// The values of byte strings.
pub open spec fn byte_views(items: Seq<Vec<u8>>) -> Seq<Seq<u8>> {
    items.map_values(|item: Vec<u8>| item@)
}

/// Joins the texts of waiting items into a body, if there is any text in them.
pub fn join_polling(texts: &Vec<String>) -> (body: Option<String>)
    ensures
        text::text_view(body) == polling_body(text::texts(texts@)),
{
    let ghost parts = text::texts(texts@);
    let mut body = String::new();
    let mut i: usize = 0;
    assert(parts.take(0) =~= Seq::empty());
    while i < texts.len()
        invariant
            i <= texts@.len(),
            parts == text::texts(texts@),
            body@ == joined_text(parts.take(i as int)),
        decreases texts@.len() - i,
    {
        proof {
            reveal_strlit("\x1e");
            assert("\x1e"@ =~= seq!['\u{1e}']);
            assert(parts.take(i + 1).drop_last() =~= parts.take(i as int));
            assert(parts.take(i + 1).last() == parts[i as int]);
        }
        let ghost before = body@;
        if i > 0 {
            body.append("\x1e");
            assert(body@ =~= before.push('\u{1e}'));
        }
        body.append(texts[i].as_str());
        assert(body@ =~= joined_text(parts.take(i + 1)));
        i = i + 1;
    }
    assert(parts.take(i as int) =~= parts);
    if body.as_str().is_empty() {
        None
    } else {
        Some(body)
    }
}

/// Builds the body for a polling client from the items that wait for it.
pub fn build_polling_payload(byte_vec: VecDeque<Vec<u8>>) -> (payload: Option<String>)
    ensures
        text::text_view(payload) == polling_payload(byte_views(byte_vec@)),
        payload is Some <==> has_polling_body(byte_views(byte_vec@)),
{
    let ghost items = byte_views(byte_vec@);
    let mut queue = byte_vec;
    let mut texts: Vec<String> = Vec::new();
    assert(items.skip(0) =~= items);
    assert(polling_pieces(items.take(0)) =~= text::texts(texts@));
    while queue.len() > 0
        invariant
            items == byte_views(byte_vec@),
            texts@.len() + queue@.len() == items.len(),
            byte_views(queue@) == items.skip(texts@.len() as int),
            text::texts(texts@) == polling_pieces(items.take(texts@.len() as int)),
            forall|i: int| 0 <= i < texts@.len() ==> (#[trigger] items[i]).len() > 0,
            texts@.len() > 0 ==> (polling_piece(items[0]).len() > 0 <==> items[0][0] == BASE64_MARK
                || valid_utf8(items[0])),
        decreases queue@.len(),
    {
        let ghost n = texts@.len() as int;
        let ghost waiting = queue@;
        let item = match queue.pop_front() {
            Some(item) => item,
            None => {
                return None;
            },
        };
        assert(item@ == byte_views(waiting)[0]);
        assert(item@ == items[n]);
        assert forall|i: int| 0 <= i < queue@.len() implies byte_views(queue@)[i] == items.skip(n + 1)[i] by {
            assert(byte_views(waiting)[i + 1] == items.skip(n)[i + 1]);
        }
        assert(byte_views(queue@) =~= items.skip(n + 1));
        if item.len() == 0 {
            return None;
        }
        let ghost before = texts@;
        let text = if item[0] == BASE64_MARK {
            binary::encode(item.as_slice())
        } else {
            match text::utf8_text(item.as_slice()) {
                Ok(s) => s,
                Err(_) => String::new(),
            }
        };
        assert(text@ == polling_piece(items[n]));
        proof {
            if item@[0] != BASE64_MARK && valid_utf8(item@) {
                decode_utf8_encode_utf8(item@);
            }
        }
        texts.push(text);
        assert forall|i: int| 0 <= i < texts@.len() implies text::texts(texts@)[i] == polling_pieces(
            items.take(n + 1),
        )[i] by {
            if i < n {
                assert(text::texts(before)[i] == polling_pieces(items.take(n))[i]);
            }
        }
        assert(text::texts(texts@) =~= polling_pieces(items.take(n + 1)));
    }
    assert(items.take(texts@.len() as int) =~= items);
    assert(items.len() > 0 ==> polling_pieces(items)[0] == polling_piece(items[0]));
    join_polling(&texts)
}

/// Whether an item is the text of a packet: not empty, not binary, and UTF-8.
pub open spec fn is_text_item(item: Seq<u8>) -> bool {
    item.len() > 0 && item[0] != BASE64_MARK && valid_utf8(item)
}

proof fn lemma_joined_text_bytes(items: Seq<Seq<u8>>)
    requires
        forall|i: int| 0 <= i < items.len() ==> is_text_item(#[trigger] items[i]),
    ensures
        encode_utf8(joined_text(polling_pieces(items))) == joined(items),
    decreases items.len(),
{
    let parts = polling_pieces(items);
    if items.len() == 1 {
        assert(is_text_item(items[0]));
        decode_utf8_encode_utf8(items[0]);
    } else if items.len() > 1 {
        let before = items.drop_last();
        assert forall|i: int| 0 <= i < before.len() implies is_text_item(#[trigger] before[i]) by {
            assert(before[i] == items[i]);
        }
        lemma_joined_text_bytes(before);
        assert(parts.drop_last() =~= polling_pieces(before));
        let head = joined_text(parts.drop_last());
        let sep = seq!['\u{1e}'];
        assert(head.push('\u{1e}') =~= head + sep);
        text::lemma_utf8_concat(head, sep);
        assert(is_ascii_chars(sep));
        is_ascii_chars_encode_utf8(sep);
        assert(encode_utf8(sep) =~= seq![SEPARATOR]);
        assert(encode_utf8(head) + seq![SEPARATOR] =~= encode_utf8(head).push(SEPARATOR));
        text::lemma_utf8_concat(head.push('\u{1e}'), parts.last());
        assert(is_text_item(items.last()));
        decode_utf8_encode_utf8(items.last());
    }
}

/// What waits for a polling client as text packets, at least one of them and none with a
/// separator, reaches it: the body decodes to those packets.
pub proof fn law_polling_payload_is_read_back(items: Seq<Seq<u8>>)
    requires
        items.len() > 0,
        forall|i: int| 0 <= i < items.len() ==> is_text_item(#[trigger] items[i]),
        separable(items),
    ensures
        polling_payload(items) is Some,
        decoded_payload(encode_utf8(polling_payload(items)->Some_0)) == decoded_packets(items),
{
    lemma_joined_text_bytes(items);
    law_joined_parts_are_pieces(items);
    let text = joined_text(polling_pieces(items));
    assert(is_text_item(items[0]));
    if text.len() == 0 {
        assert(joined(items) =~= Seq::empty());
        assert(pieces(joined(items))[0] == items[0]);
    }
}

/// Joining rows of byte strings one behind the other joins what each of them makes, with a separator
/// in between; one byte string is its own join.
pub proof fn law_joined_rows(a: Seq<Seq<u8>>, b: Seq<Seq<u8>>, one: Seq<u8>)
    requires
        a.len() > 0,
        b.len() > 0,
    ensures
        joined(a + b) == joined(a) + seq![0x1eu8] + joined(b),
        joined(seq![one]) == one,
        joined(Seq::empty()) == Seq::<u8>::empty(),
    decreases b.len(),
{
    if b.len() == 1 {
        assert((a + b).drop_last() =~= a);
        assert(joined(a + b) =~= joined(a) + seq![0x1eu8] + joined(b));
    } else {
        law_joined_rows(a, b.drop_last(), one);
        assert((a + b).drop_last() =~= a + b.drop_last());
        assert(joined(a + b) =~= joined(a) + seq![0x1eu8] + joined(b));
    }
}

/// Joining rows of texts one behind the other joins what each of them makes, with a separator in
/// between; one text is its own join.
pub proof fn law_joined_texts(a: Seq<Seq<char>>, b: Seq<Seq<char>>, one: Seq<char>)
    requires
        a.len() > 0,
        b.len() > 0,
    ensures
        joined_text(a + b) == joined_text(a) + seq!['\u{1e}'] + joined_text(b),
        joined_text(seq![one]) == one,
        joined_text(Seq::empty()) == Seq::<char>::empty(),
    decreases b.len(),
{
    if b.len() == 1 {
        assert((a + b).drop_last() =~= a);
        assert(joined_text(a + b) =~= joined_text(a) + seq!['\u{1e}'] + joined_text(b));
    } else {
        law_joined_texts(a, b.drop_last(), one);
        assert((a + b).drop_last() =~= a + b.drop_last());
        assert(joined_text(a + b) =~= joined_text(a) + seq!['\u{1e}'] + joined_text(b));
    }
}

/// A payload is read if and only if each of its pieces is: then the packets are those of the pieces,
/// one for one. Otherwise the error is that of the first piece that is not read.
pub proof fn law_payload_is_read_by_pieces(bytes: Seq<u8>)
    ensures
        match decoded_payload(bytes) {
            Ok(packets) => packets.len() == pieces(bytes).len() && forall|i: int|
                0 <= i < packets.len() ==> packet::decoded_packet(#[trigger] pieces(bytes)[i]) == Ok::<
                    PacketView,
                    Error,
                >(packets[i]),
            Err(e) => exists|i: int|
                {
                    &&& 0 <= i < pieces(bytes).len()
                    &&& #[trigger] packet::decoded_packet(pieces(bytes)[i]) == Err::<PacketView, Error>(e)
                    &&& forall|j: int| 0 <= j < i ==> packet::decoded_packet(#[trigger] pieces(bytes)[j]) is Ok
                },
        },
{
    lemma_read_by_parts(pieces(bytes));
}

proof fn lemma_read_by_parts(parts: Seq<Seq<u8>>)
    ensures
        match decoded_packets(parts) {
            Ok(packets) => packets.len() == parts.len() && forall|i: int|
                0 <= i < packets.len() ==> packet::decoded_packet(#[trigger] parts[i]) == Ok::<
                    PacketView,
                    Error,
                >(packets[i]),
            Err(e) => exists|i: int|
                {
                    &&& 0 <= i < parts.len()
                    &&& #[trigger] packet::decoded_packet(parts[i]) == Err::<PacketView, Error>(e)
                    &&& forall|j: int| 0 <= j < i ==> packet::decoded_packet(#[trigger] parts[j]) is Ok
                },
        },
    decreases parts.len(),
{
    if decoded_packets(parts) is Ok {
        lemma_decoded_packets_elements(parts);
    } else {
        let before = parts.drop_last();
        lemma_read_by_parts(before);
        if decoded_packets(before) is Ok {
            lemma_decoded_packets_elements(before);
            let i = parts.len() - 1;
            assert forall|j: int| 0 <= j < i implies packet::decoded_packet(#[trigger] parts[j]) is Ok by {
                assert(before[j] == parts[j]);
            }
            assert(packet::decoded_packet(parts[i]) is Err);
        } else {
            let e = decoded_packets(before)->Err_0;
            let i = choose|i: int|
                {
                    &&& 0 <= i < before.len()
                    &&& #[trigger] packet::decoded_packet(before[i]) == Err::<PacketView, Error>(e)
                    &&& forall|j: int| 0 <= j < i ==> packet::decoded_packet(#[trigger] before[j]) is Ok
                };
            assert(before[i] == parts[i]);
            assert forall|j: int| 0 <= j < i implies packet::decoded_packet(#[trigger] parts[j]) is Ok by {
                assert(before[j] == parts[j]);
            }
        }
    }
}

/// A payload is written as the encodings of its packets, in order: rows of packets one behind the
/// other are written one behind the other, with a separator in between.
pub proof fn law_payload_is_written_by_packets(a: Seq<PacketView>, b: Seq<PacketView>, p: PacketView)
    requires
        a.len() > 0,
        b.len() > 0,
    ensures
        encoded_payload(seq![p]) == packet::encoded_packet(p),
        encoded_payload(a + b) == encoded_payload(a) + seq![0x1eu8] + encoded_payload(b),
{
    assert(encoded_packets(a + b) =~= encoded_packets(a) + encoded_packets(b));
    assert(encoded_packets(seq![p]) =~= seq![packet::encoded_packet(p)]);
    law_joined_rows(encoded_packets(a), encoded_packets(b), packet::encoded_packet(p));
}

/// What waits for a polling client is handed out in order: an item that starts with a `b` as its
/// base64, another as the text that it is, if it is one. With an empty item nothing is handed out.
pub proof fn law_polling_items_are_handed_out(a: Seq<Seq<u8>>, b: Seq<Seq<u8>>, item: Seq<u8>)
    requires
        a.len() > 0,
        b.len() > 0,
        forall|i: int| 0 <= i < a.len() ==> (#[trigger] a[i]).len() > 0,
        forall|i: int| 0 <= i < b.len() ==> (#[trigger] b[i]).len() > 0,
        item.len() > 0,
    ensures
        ({
            let text_of = |body: Option<Seq<char>>| match body {
                Some(text) => text,
                None => Seq::<char>::empty(),
            };
            &&& polling_payload(a + b) == Some(
                text_of(polling_payload(a)) + seq!['\u{1e}'] + text_of(polling_payload(b)),
            )
            &&& item[0] == 0x62 ==> text_of(polling_payload(seq![item])) == binary::base64_text(item)
            &&& item[0] != 0x62 && valid_utf8(item) ==> encode_utf8(
                text_of(polling_payload(seq![item])),
            ) == item
            &&& item[0] != 0x62 && !valid_utf8(item) ==> polling_payload(seq![item]) is None
            &&& polling_payload(seq![Seq::<u8>::empty()] + a) is None
            &&& polling_payload(a + seq![Seq::<u8>::empty()]) is None
        }),
{
    assert(polling_pieces(a + b) =~= polling_pieces(a) + polling_pieces(b));
    law_joined_texts(polling_pieces(a), polling_pieces(b), polling_piece(item));
    assert forall|i: int| 0 <= i < (a + b).len() implies (#[trigger] (a + b)[i]).len() > 0 by {
        if i < a.len() {
            assert((a + b)[i] == a[i]);
        } else {
            assert((a + b)[i] == b[i - a.len()]);
        }
    }
    let one = seq![item];
    assert forall|i: int| 0 <= i < one.len() implies (#[trigger] one[i]).len() > 0 by {}
    assert(polling_pieces(one) =~= seq![polling_piece(item)]);
    if item[0] != 0x62 && valid_utf8(item) {
        decode_utf8_encode_utf8(item);
    }
    if binary::base64_text(item).len() == 0 {
        assert(binary::base64_text(item) =~= Seq::<char>::empty());
    }
    let first = seq![Seq::<u8>::empty()] + a;
    let last = a + seq![Seq::<u8>::empty()];
    assert(first[0].len() == 0);
    assert(last[a.len() as int].len() == 0);
    assert forall|body: Seq<char>| body.len() == 0 implies body =~= Seq::<char>::empty() by {}
    if joined_text(polling_pieces(a)).len() == 0 {
        assert(joined_text(polling_pieces(a)) =~= Seq::<char>::empty());
    }
    if joined_text(polling_pieces(b)).len() == 0 {
        assert(joined_text(polling_pieces(b)) =~= Seq::<char>::empty());
    }
    if polling_piece(item).len() == 0 {
        assert(polling_piece(item) =~= Seq::<char>::empty());
    }
}

/// The values of byte strings stand in the places of the strings, one for each.
pub proof fn law_byte_values_in_place(row: Seq<Vec<u8>>, i: int)
    requires
        0 <= i < row.len(),
    ensures
        byte_views(row).len() == row.len(),
        byte_views(row)[i] == row[i]@,
{
}

/// A packet can stand in a payload unless it is a message without data, or holds the byte that
/// separates packets and is not binary.
pub proof fn law_what_fits_payload(p: PacketView)
    ensures
        fits_payload(p) <==> !(p.ptype == PacketType::Message && p.data.len() == 0) && (p.ptype
            == PacketType::MessageBinary || forall|i: int|
            0 <= i < p.data.len() ==> #[trigger] p.data[i] != 0x1e),
{
    if p.data.contains(SEPARATOR) {
        let i = choose|i: int| 0 <= i < p.data.len() && p.data[i] == SEPARATOR;
        assert(p.data[i] == 0x1e);
    }
    if !p.data.contains(SEPARATOR) {
        assert forall|i: int| 0 <= i < p.data.len() implies #[trigger] p.data[i] != 0x1e by {
            assert(p.data.contains(p.data[i]));
        }
    }
}

}
