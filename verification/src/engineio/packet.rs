//! Packets of the `engine.io` protocol.
use std::sync::Arc;

use vstd::prelude::*;
use vstd::string::*;
use vstd::utf8::*;

use crate::binary;
use crate::binary::DecodeError;
use crate::engineio::error::Error;
use crate::text;

verus! {

/// The identifier of a session.
pub type Sid = Arc<String>;

/// The byte between the packets of a payload.
pub const SEPARATOR: u8 = 0x1e;

/// The byte that marks base64 data.
pub const BASE64_MARK: u8 = 0x62;

#[derive(Copy, Clone, Eq, PartialEq, Debug, Structural)]
pub enum PacketType {
    Open,
    Close,
    Ping,
    Pong,
    Message,
    MessageBinary,
    Upgrade,
    Noop,
}

/// The number of a packet type.
pub open spec fn type_number(t: PacketType) -> u8 {
    match t {
        PacketType::Open => 0,
        PacketType::Close => 1,
        PacketType::Ping => 2,
        PacketType::Pong => 3,
        PacketType::Message => 4,
        PacketType::MessageBinary => 4,
        PacketType::Upgrade => 5,
        PacketType::Noop => 6,
    }
}

/// The text of a packet type: its number, or `b` for binary data.
pub open spec fn type_text(t: PacketType) -> Seq<char> {
    if t == PacketType::MessageBinary {
        seq!['b']
    } else {
        text::decimal(type_number(t) as nat)
    }
}

/// The byte of a packet type's text.
pub open spec fn type_byte(t: PacketType) -> u8 {
    if t == PacketType::MessageBinary {
        BASE64_MARK
    } else {
        (0x30 + type_number(t)) as u8
    }
}

/// The packet type that a byte stands for: a number, or the digit of one.
pub open spec fn type_of_byte(b: u8) -> Result<PacketType, Error> {
    if b == 0 || b == 0x30 {
        Ok(PacketType::Open)
    } else if b == 1 || b == 0x31 {
        Ok(PacketType::Close)
    } else if b == 2 || b == 0x32 {
        Ok(PacketType::Ping)
    } else if b == 3 || b == 0x33 {
        Ok(PacketType::Pong)
    } else if b == 4 || b == 0x34 {
        Ok(PacketType::Message)
    } else if b == 5 || b == 0x35 {
        Ok(PacketType::Upgrade)
    } else if b == 6 || b == 0x36 {
        Ok(PacketType::Noop)
    } else {
        Err(Error::InvalidPacketType(b))
    }
}

impl vstd::std_specs::convert::FromSpecImpl<PacketType> for u8 {
    open spec fn obeys_from_spec() -> bool {
        true
    }

    open spec fn from_spec(ptype: PacketType) -> u8 {
        type_number(ptype)
    }
}

impl From<PacketType> for u8 {
    fn from(ptype: PacketType) -> (n: u8) {
        match ptype {
            PacketType::Open => 0,
            PacketType::Close => 1,
            PacketType::Ping => 2,
            PacketType::Pong => 3,
            PacketType::Message => 4,
            PacketType::MessageBinary => 4,
            PacketType::Upgrade => 5,
            PacketType::Noop => 6,
        }
    }
}

impl vstd::std_specs::convert::FromSpecImpl<PacketType> for String {
    open spec fn obeys_from_spec() -> bool {
        false
    }

    open spec fn from_spec(ptype: PacketType) -> String {
        arbitrary()
    }
}

impl From<PacketType> for String {
    fn from(packet: PacketType) -> (s: String)
        ensures
            s@ == type_text(packet),
    {
        match packet {
            PacketType::MessageBinary => {
                proof {
                    reveal_strlit("b");
                    assert("b"@ =~= seq!['b']);
                }
                "b".to_owned()
            },
            _ => text::decimal_text(u8::from(packet) as u64),
        }
    }
}

impl vstd::std_specs::convert::TryFromSpecImpl<u8> for PacketType {
    open spec fn obeys_try_from_spec() -> bool {
        true
    }

    open spec fn try_from_spec(b: u8) -> Result<PacketType, Error> {
        type_of_byte(b)
    }
}

impl TryFrom<u8> for PacketType {
    type Error = Error;

    /// Converts a byte into the corresponding `PacketType`.
    fn try_from(b: u8) -> (t: Result<PacketType, Error>) {
        match b {
            0 | 0x30 => Ok(PacketType::Open),
            1 | 0x31 => Ok(PacketType::Close),
            2 | 0x32 => Ok(PacketType::Ping),
            3 | 0x33 => Ok(PacketType::Pong),
            4 | 0x34 => Ok(PacketType::Message),
            5 | 0x35 => Ok(PacketType::Upgrade),
            6 | 0x36 => Ok(PacketType::Noop),
            _ => Err(Error::InvalidPacketType(b)),
        }
    }
}

/// A packet type is read back from its number and from the byte of its text; binary data shares
/// its number with text.
pub proof fn law_type_is_read_back(t: PacketType)
    ensures
        t != PacketType::MessageBinary ==> type_of_byte(type_number(t)) == Ok::<PacketType, Error>(t),
        t != PacketType::MessageBinary ==> type_of_byte(type_byte(t)) == Ok::<PacketType, Error>(t),
        type_of_byte(type_number(PacketType::MessageBinary)) == Ok::<PacketType, Error>(
            PacketType::Message,
        ),
{
}

/// The text of a packet type is one byte.
pub proof fn lemma_type_text_bytes(t: PacketType)
    ensures
        encode_utf8(type_text(t)) =~= seq![type_byte(t)],
{
    assert(is_ascii_chars(type_text(t)));
    is_ascii_chars_encode_utf8(type_text(t));
}

/// A `Packet` sent via the `engine.io` protocol.
#[derive(Debug, Eq, PartialEq)]
pub struct Packet {
    pub ptype: PacketType,
    pub data: Vec<u8>,
}

/// The value of a packet.
pub struct PacketView {
    pub ptype: PacketType,
    pub data: Seq<u8>,
}

impl View for Packet {
    type V = PacketView;

    open spec fn view(&self) -> PacketView {
        PacketView { ptype: self.ptype, data: self.data@ }
    }
}

/// The values of a row of packets.
pub open spec fn packet_views(packets: Seq<Packet>) -> Seq<PacketView> {
    packets.map_values(|p: Packet| p@)
}

/// Data which gets exchanged in a handshake as defined by the server.
#[derive(Clone, Debug, PartialEq, Eq)]
pub struct HandshakePacket {
    pub sid: Sid,
    pub upgrades: Vec<String>,
    pub ping_interval: u64,
    pub ping_timeout: u64,
    pub max_payload: usize,
}

/// What follows the type byte of an encoded packet.
pub open spec fn packet_body(p: PacketView) -> Seq<u8> {
    if p.ptype == PacketType::MessageBinary {
        encode_utf8(binary::base64_text(p.data))
    } else {
        p.data
    }
}

/// The encoding of a packet: the byte of its type, then the data, in base64 if it is binary.
pub open spec fn encoded_packet(p: PacketView) -> Seq<u8> {
    seq![type_byte(p.ptype)] + packet_body(p)
}

/// The packet that a base64 decoder's result makes.
pub open spec fn binary_packet(decoded: Result<Seq<u8>, DecodeError>) -> Result<PacketView, Error> {
    match decoded {
        Ok(data) => Ok(PacketView { ptype: PacketType::MessageBinary, data }),
        Err(e) => Err(Error::InvalidBase64(e)),
    }
}

/// The packet that a byte string encodes. Nothing, and a message without data, are incomplete.
pub open spec fn decoded_packet(bytes: Seq<u8>) -> Result<PacketView, Error> {
    if bytes.len() == 0 {
        Err(Error::IncompletePacket())
    } else if bytes[0] == BASE64_MARK {
        binary_packet(binary::base64_data(bytes.skip(1)))
    } else {
        match type_of_byte(bytes[0]) {
            Err(e) => Err(e),
            Ok(ptype) => if bytes.len() == 1 && ptype == PacketType::Message {
                Err(Error::IncompletePacket())
            } else {
                Ok(PacketView { ptype, data: bytes.skip(1) })
            },
        }
    }
}

/// Whether the encoding of a packet is not taken for an incomplete packet.
pub open spec fn is_complete(p: PacketView) -> bool {
    !(p.ptype == PacketType::Message && p.data.len() == 0)
}

/// A decoding's result by its value.
pub open spec fn packet_outcome(result: Result<Packet, Error>) -> Result<PacketView, Error> {
    match result {
        Ok(p) => Ok(p@),
        Err(e) => Err(e),
    }
}

impl Clone for Packet {
    fn clone(&self) -> (p: Self)
        ensures
            p@ == self@,
    {
        let data = self.data.clone();
        assert(data@ =~= self.data@);
        Packet { ptype: self.ptype, data }
    }
}

impl Packet {
    pub fn new(ptype: PacketType, data: Vec<u8>) -> (p: Self)
        ensures
            p@ == (PacketView { ptype, data: data@ }),
    {
        Packet { ptype, data }
    }

    pub fn noop() -> (p: Self)
        ensures
            p@ == (PacketView { ptype: PacketType::Noop, data: Seq::empty() }),
    {
        Packet { ptype: PacketType::Noop, data: Vec::new() }
    }

    /// Makes the packet of binary data from what a base64 decoder found.
    pub fn from_base64(decoded: Result<Vec<u8>, DecodeError>) -> (p: Result<Packet, Error>)
        ensures
            packet_outcome(p) == binary_packet(binary::decoded(decoded)),
    {
        match decoded {
            Ok(data) => Ok(Packet { ptype: PacketType::MessageBinary, data }),
            Err(e) => Err(Error::InvalidBase64(e)),
        }
    }

    /// Puts the byte of a packet type before a body.
    pub fn framed(ptype: PacketType, body: &[u8]) -> (bytes: Vec<u8>)
        ensures
            bytes@ == seq![type_byte(ptype)] + body@,
    {
        let head = String::from(ptype);
        let mut bytes: Vec<u8> = Vec::new();
        bytes.extend_from_slice(head.as_str().as_bytes());
        proof {
            lemma_type_text_bytes(ptype);
        }
        bytes.extend_from_slice(body);
        assert(bytes@ =~= seq![type_byte(ptype)] + body@);
        bytes
    }
}

impl vstd::std_specs::convert::TryFromSpecImpl<Vec<u8>> for Packet {
    open spec fn obeys_try_from_spec() -> bool {
        false
    }

    open spec fn try_from_spec(bytes: Vec<u8>) -> Result<Packet, Error> {
        arbitrary()
    }
}

impl TryFrom<Vec<u8>> for Packet {
    type Error = Error;

    /// Decodes a single `Packet` from an `u8` byte stream.
    fn try_from(bytes: Vec<u8>) -> (p: Result<Packet, Error>)
        ensures
            packet_outcome(p) == decoded_packet(bytes@),
            bytes@ == seq![BASE64_MARK] ==> packet_outcome(p) == Ok::<PacketView, Error>(
                PacketView { ptype: PacketType::MessageBinary, data: Seq::empty() },
            ),
    {
        let ghost input = bytes@;
        if bytes.len() == 0 {
            return Err(Error::IncompletePacket());
        }
        let first: u8 = bytes[0];
        let is_base64 = first == BASE64_MARK;
        // only 'messages' packets could be encoded
        let ptype = if is_base64 {
            PacketType::MessageBinary
        } else {
            match PacketType::try_from(first) {
                Ok(ptype) => ptype,
                Err(e) => {
                    return Err(e);
                },
            }
        };
        if bytes.len() == 1 && ptype == PacketType::Message {
            return Err(Error::IncompletePacket());
        }
        let mut bytes = bytes;
        let data = bytes.split_off(1);
        assert(data@ =~= input.skip(1));
        if is_base64 {
            let decoded = binary::decode(data.as_slice());
            assert(data@.len() == 0 ==> decoded->Ok_0@ =~= Seq::empty());
            Packet::from_base64(decoded)
        } else {
            Ok(Packet { ptype, data })
        }
    }
}

impl vstd::std_specs::convert::FromSpecImpl<Packet> for Vec<u8> {
    open spec fn obeys_from_spec() -> bool {
        false
    }

    open spec fn from_spec(packet: Packet) -> Vec<u8> {
        arbitrary()
    }
}

impl From<Packet> for Vec<u8> {
    /// Encodes a `Packet` into an `u8` byte stream. What a complete packet encodes to decodes to
    /// the packet, and binary data encodes without a separator.
    fn from(packet: Packet) -> (bytes: Vec<u8>)
        ensures
            bytes@ == encoded_packet(packet@),
            is_complete(packet@) ==> decoded_packet(bytes@) == Ok::<PacketView, Error>(packet@),
            packet.ptype == PacketType::MessageBinary ==> !bytes@.contains(SEPARATOR),
    {
        if packet.ptype == PacketType::MessageBinary {
            let body = binary::encode(packet.data.as_slice());
            let bytes = Packet::framed(packet.ptype, body.as_str().as_bytes());
            proof {
                binary::lemma_base64_bytes(body@);
                assert(bytes@.skip(1) =~= encode_utf8(body@));
                let rest = encode_utf8(body@);
                assert forall|i: int| 0 <= i < bytes@.len() implies bytes@[i] != SEPARATOR by {
                    if i > 0 {
                        assert(bytes@[i] == rest[i - 1]);
                    }
                }
            }
            bytes
        } else {
            let bytes = Packet::framed(packet.ptype, packet.data.as_slice());
            assert(bytes@.skip(1) =~= packet.data@);
            bytes
        }
    }
}

/// A packet that is not binary is read back from its encoding, unless it is a message without
/// data.
pub proof fn law_text_packet_is_read_back(p: PacketView)
    requires
        p.ptype != PacketType::MessageBinary,
        is_complete(p),
    ensures
        decoded_packet(encoded_packet(p)) == Ok::<PacketView, Error>(p),
{
    assert(encoded_packet(p).skip(1) =~= p.data);
}

/// A byte string that starts with the digit of a type is the encoding of the packet that it
/// decodes to.
pub proof fn law_text_packet_is_written_back(bytes: Seq<u8>)
    requires
        bytes.len() > 0,
        0x30 <= bytes[0] <= 0x36,
        decoded_packet(bytes) is Ok,
    ensures
        encoded_packet(decoded_packet(bytes)->Ok_0) == bytes,
{
    assert(encoded_packet(decoded_packet(bytes)->Ok_0) =~= bytes);
}

/// The texts of the packet types: a digit for each, and `b` for binary data, which shares its number
/// with the messages. Each text is written as the byte of its character.
pub proof fn law_type_texts(t: PacketType)
    ensures
        type_text(t).len() == 1,
        type_byte(t) as int == type_text(t)[0] as int,
        type_text(PacketType::Open)[0] == '0' && type_number(PacketType::Open) == 0,
        type_text(PacketType::Close)[0] == '1' && type_number(PacketType::Close) == 1,
        type_text(PacketType::Ping)[0] == '2' && type_number(PacketType::Ping) == 2,
        type_text(PacketType::Pong)[0] == '3' && type_number(PacketType::Pong) == 3,
        type_text(PacketType::Message)[0] == '4' && type_number(PacketType::Message) == 4,
        type_text(PacketType::MessageBinary)[0] == 'b' && type_number(PacketType::MessageBinary) == 4,
        type_text(PacketType::Upgrade)[0] == '5' && type_number(PacketType::Upgrade) == 5,
        type_text(PacketType::Noop)[0] == '6' && type_number(PacketType::Noop) == 6,
{
}

/// A byte stands for a packet type if and only if it is a number up to six, or the digit of one; it
/// stands for the type of that number. Any other byte is told in the error.
pub proof fn law_type_of_byte(b: u8)
    ensures
        b <= 6 || 0x30 <= b <= 0x36 ==> (type_of_byte(b) matches Ok(t) && type_number(t) == b % 0x30 && t
            != PacketType::MessageBinary),
        !(b <= 6 || 0x30 <= b <= 0x36) ==> type_of_byte(b) == Err::<PacketType, Error>(
            Error::InvalidPacketType(b),
        ),
{
}

/// A packet is written as the character of its type, and then its data, which only binary packets
/// write as base64.
pub proof fn law_packet_is_written(p: PacketView)
    ensures
        encoded_packet(p).len() > 0,
        encoded_packet(p)[0] as int == type_text(p.ptype)[0] as int,
        p.ptype != PacketType::MessageBinary ==> encoded_packet(p).skip(1) == p.data,
        p.ptype == PacketType::MessageBinary ==> encoded_packet(p).skip(1) == encode_utf8(
            binary::base64_text(p.data),
        ),
{
    law_type_texts(p.ptype);
    assert(encoded_packet(p).skip(1) =~= packet_body(p));
}

/// How bytes are read as a packet. Without any bytes, or with nothing behind the type of a message,
/// they are incomplete. Behind a `b` they are base64, and what is wrong with them is told.
/// Otherwise the first tells the type, and all the rest are the data.
pub proof fn law_packet_is_read(bytes: Seq<u8>)
    ensures
        bytes.len() == 0 || (bytes.len() == 1 && (bytes[0] == 4 || bytes[0] == 0x34))
            <==> decoded_packet(bytes) == Err::<PacketView, Error>(Error::IncompletePacket()),
        bytes.len() > 0 && bytes[0] == 0x62 ==> match binary::base64_data(bytes.skip(1)) {
            Ok(data) => decoded_packet(bytes) matches Ok(p) && p.ptype == PacketType::MessageBinary
                && p.data == data,
            Err(e) => decoded_packet(bytes) == Err::<PacketView, Error>(Error::InvalidBase64(e)),
        },
        bytes.len() > 0 && bytes[0] != 0x62 && !(bytes[0] <= 6 || 0x30 <= bytes[0] <= 0x36)
            ==> decoded_packet(bytes) == Err::<PacketView, Error>(Error::InvalidPacketType(bytes[0])),
        bytes.len() > 1 && (bytes[0] <= 6 || 0x30 <= bytes[0] <= 0x36) ==> (decoded_packet(bytes)
            matches Ok(p) && type_number(p.ptype) == bytes[0] % 0x30 && p.ptype
            != PacketType::MessageBinary && p.data.len() == bytes.len() - 1 && (forall|i: int|
            1 <= i < bytes.len() ==> p.data[i - 1] == #[trigger] bytes[i])),
        bytes.len() == 1 && decoded_packet(bytes) is Ok && bytes[0] != 0x62
            ==> decoded_packet(bytes)->Ok_0.data.len() == 0 && type_number(
            decoded_packet(bytes)->Ok_0.ptype,
        ) == bytes[0] % 0x30,
{
    if bytes.len() > 0 {
        law_type_of_byte(bytes[0]);
    }
}

/// Binary data are read back from their packet, as long as their base64 stands for them.
pub proof fn law_binary_packet_is_read_back(data: Seq<u8>)
    requires
        binary::stands_for(binary::base64_text(data), data),
    ensures
        decoded_packet(
            encoded_packet(PacketView { ptype: PacketType::MessageBinary, data }),
        ) == Ok::<PacketView, Error>(PacketView { ptype: PacketType::MessageBinary, data }),
{
    law_packet_is_written(PacketView { ptype: PacketType::MessageBinary, data });
}

/// The values of packets stand in the places of the packets, one for each.
pub proof fn law_packet_values_in_place(row: Seq<Packet>, i: int)
    requires
        0 <= i < row.len(),
    ensures
        packet_views(row).len() == row.len(),
        packet_views(row)[i] == row[i]@,
{
}

}
