//! What the transports carry, and how polling and websockets frame it.
use vstd::prelude::*;
use vstd::string::*;
use vstd::utf8::*;

use crate::address;
use crate::address::{Address, AddressView, ChangeView, PartsView};
use crate::binary;
use crate::engineio::error::Error;
use crate::engineio::packet;
use crate::engineio::packet::{Packet, PacketType, PacketView, BASE64_MARK, SEPARATOR};
use crate::engineio::payload;
use crate::text;

verus! {

/// What a transport is given to send.
#[derive(Debug, PartialEq, Eq)]
pub enum Data {
    Text(Vec<u8>),
    Binary(Vec<u8>),
}

/// The value of what a transport is given to send.
pub enum DataView {
    Text(Seq<u8>),
    Binary(Seq<u8>),
}

impl View for Data {
    type V = DataView;

    open spec fn view(&self) -> DataView {
        match self {
            Data::Text(data) => DataView::Text(data@),
            Data::Binary(data) => DataView::Binary(data@),
        }
    }
}

/// A message of a websocket.
#[derive(Debug, PartialEq, Eq)]
pub enum Message {
    Text(String),
    Binary(Vec<u8>),
    Ping(Vec<u8>),
    Pong(Vec<u8>),
    /// A close frame, with its reason.
    Close(Option<String>),
    /// A raw frame: its data.
    Frame(Vec<u8>),
}

/// The value of a message.
pub enum MessageView {
    Text(Seq<char>),
    Binary(Seq<u8>),
    Ping(Seq<u8>),
    Pong(Seq<u8>),
    Close(Option<Seq<char>>),
    Frame(Seq<u8>),
}

impl View for Message {
    type V = MessageView;

    open spec fn view(&self) -> MessageView {
        match self {
            Message::Text(s) => MessageView::Text(s@),
            Message::Binary(data) => MessageView::Binary(data@),
            Message::Ping(data) => MessageView::Ping(data@),
            Message::Pong(data) => MessageView::Pong(data@),
            Message::Close(reason) => MessageView::Close(text::text_view(*reason)),
            Message::Frame(data) => MessageView::Frame(data@),
        }
    }
}

/// The value of an optional message.
pub open spec fn message_view(message: Option<Message>) -> Option<MessageView> {
    match message {
        Some(message) => Some(message@),
        None => None,
    }
}

/// The message that data make; none where text data are no text.
pub open spec fn data_message(data: DataView) -> Option<MessageView> {
    match data {
        DataView::Text(bytes) => if valid_utf8(bytes) {
            Some(MessageView::Text(decode_utf8(bytes)))
        } else {
            None
        },
        DataView::Binary(bytes) => Some(MessageView::Binary(bytes)),
    }
}

/// A conversion's result by its value.
pub open spec fn message_outcome(result: Result<Message, Error>) -> Result<MessageView, Error> {
    match result {
        Ok(message) => Ok(message@),
        Err(e) => Err(e),
    }
}

impl vstd::std_specs::convert::TryFromSpecImpl<Data> for Message {
    open spec fn obeys_try_from_spec() -> bool {
        false
    }

    open spec fn try_from_spec(data: Data) -> Result<Message, Error> {
        arbitrary()
    }
}

impl TryFrom<Data> for Message {
    type Error = Error;

    fn try_from(data: Data) -> (message: Result<Message, Error>)
        ensures
            match message {
                Ok(m) => data_message(data@) == Some(m@),
                Err(e) => data_message(data@) is None && (e matches Error::Utf8Error(fault)
                    && fault@ == text::utf8_fault(data@->Text_0)),
            },
    {
        match data {
            Data::Text(data) => match text::utf8_text(data.as_slice()) {
                Ok(s) => Ok(Message::Text(s)),
                Err(fault) => Err(Error::Utf8Error(fault)),
            },
            Data::Binary(data) => Ok(Message::Binary(data)),
        }
    }
}

/// What a message holds, as bytes.
pub open spec fn message_data(message: MessageView) -> Seq<u8> {
    match message {
        MessageView::Text(s) => encode_utf8(s),
        MessageView::Binary(data) => data,
        MessageView::Ping(data) => data,
        MessageView::Pong(data) => data,
        MessageView::Close(None) => Seq::empty(),
        MessageView::Close(Some(reason)) => encode_utf8(reason),
        MessageView::Frame(data) => data,
    }
}

/// The bytes of a text.
pub fn text_bytes(s: &str) -> (bytes: Vec<u8>)
    ensures
        bytes@ == encode_utf8(s@),
{
    let mut bytes: Vec<u8> = Vec::new();
    bytes.extend_from_slice(s.as_bytes());
    assert(bytes@ =~= encode_utf8(s@));
    bytes
}

/// The payload bytes that a received message stands for. Only text and binary messages stand for
/// any; binary data count as a message packet.
pub open spec fn received(message: MessageView) -> Option<Seq<u8>> {
    match message {
        MessageView::Text(s) => Some(encode_utf8(s)),
        MessageView::Binary(data) => Some(
            seq![packet::type_number(PacketType::Message)] + data,
        ),
        _ => None,
    }
}

impl Message {
    /// What the message holds, as bytes.
    pub fn into_data(self) -> (data: Vec<u8>)
        ensures
            data@ == message_data(self@),
    {
        match self {
            Message::Text(s) => text_bytes(s.as_str()),
            Message::Binary(data) => data,
            Message::Ping(data) => data,
            Message::Pong(data) => data,
            Message::Close(None) => Vec::new(),
            Message::Close(Some(reason)) => text_bytes(reason.as_str()),
            Message::Frame(data) => data,
        }
    }

    /// The payload bytes that the message stands for as a transport receives it; none where the
    /// transport goes on to the next message.
    pub fn into_received(self) -> (bytes: Option<Vec<u8>>)
        ensures
            bytes is Some <==> received(self@) is Some,
            bytes matches Some(b) ==> Some(b@) == received(self@),
    {
        match self {
            Message::Text(s) => Some(text_bytes(s.as_str())),
            Message::Binary(data) => {
                let mut bytes: Vec<u8> = Vec::new();
                bytes.push(u8::from(PacketType::Message));
                bytes.extend_from_slice(data.as_slice());
                assert(bytes@ =~= seq![packet::type_number(PacketType::Message)] + data@);
                Some(bytes)
            },
            _ => None,
        }
    }
}

/// The body of the request or response that carries data while polling.
pub open spec fn polling_body(data: DataView) -> Seq<u8> {
    match data {
        DataView::Text(bytes) => bytes,
        DataView::Binary(bytes) => seq![BASE64_MARK] + encode_utf8(binary::base64_text(bytes)),
    }
}

/// Makes the body that carries data while polling. As a payload, the body of binary data is read
/// back as the packet of those data alone.
pub fn into_polling_body(data: Data) -> (body: Vec<u8>)
    ensures
        body@ == polling_body(data@),
        data matches Data::Binary(bytes) ==> packet::decoded_packet(body@) == Ok::<PacketView, Error>(
            PacketView { ptype: PacketType::MessageBinary, data: bytes@ },
        ),
        data matches Data::Binary(bytes) ==> payload::decoded_payload(body@) == Ok::<
            Seq<PacketView>,
            Error,
        >(seq![PacketView { ptype: PacketType::MessageBinary, data: bytes@ }]),
{
    match data {
        Data::Text(data) => data,
        Data::Binary(data) => {
            let packet = Packet::new(PacketType::MessageBinary, data);
            let body = Vec::<u8>::from(packet);
            proof {
                assert forall|i: int| 0 <= i < body@.skip(1).len() implies body@.skip(1)[i]
                    != SEPARATOR by {
                    assert(body@.contains(body@[i + 1]));
                }
                lemma_lone_packet(body@, packet@);
            }
            body
        },
    }
}

/// Whether the status of a response tells that the server took a request.
pub fn check_status(status: u16) -> (result: Result<(), Error>)
    ensures
        status == 200 ==> result is Ok,
        status != 200 ==> result == Err::<(), Error>(Error::InvalidHttpResponseStatus(status)),
{
    match status {
        200 => Ok(()),
        _ => Err(Error::InvalidHttpResponseStatus(status)),
    }
}

/// The URL that a polling client asks.
pub open spec fn polling_url(url: AddressView) -> AddressView {
    address::with_pair(url, "transport"@, "polling"@)
}

/// Whether there is room in a URL for the name of the polling transport.
pub open spec fn has_polling_room(url: AddressView) -> bool {
    address::has_room(url, address::byte_len("transport"@) + address::byte_len("polling"@))
}

/// The client's end of polling: the URL that it asks.
#[derive(Debug)]
pub struct ClientPollingTransport {
    url: Address,
}

impl View for ClientPollingTransport {
    type V = AddressView;

    closed spec fn view(&self) -> AddressView {
        self.url@
    }
}

impl ClientPollingTransport {
    /// Makes a transport that polls a URL. It fails where the URL is too long.
    pub fn new(url: &Address) -> (transport: Result<Self, Error>)
        ensures
            transport is Ok <==> has_polling_room(url@),
            transport matches Ok(t) ==> t@ == polling_url(url@) && address::parts_of(t@) == (
            PartsView {
                text: address::parts_of(t@).text,
                query: address::parts_of(url@).query.push(("transport"@, "polling"@)),
                ..address::parts_of(url@)
            }),
            transport matches Err(e) ==> e == Error::InvalidUrl(),
            address::is_short(url@) ==> transport is Ok,
    {
        proof {
            reveal_strlit("transport");
            reveal_strlit("polling");
            is_ascii_chars_encode_utf8("transport"@);
            is_ascii_chars_encode_utf8("polling"@);
        }
        match url.append_pair("transport", "polling") {
            Some(url) => Ok(ClientPollingTransport { url }),
            None => Err(Error::InvalidUrl()),
        }
    }

    /// The URL that the transport asks.
    pub fn url(&self) -> (url: String)
        ensures
            url@ == address::parts_of(self@).text,
    {
        self.url.text().to_owned()
    }

    /// The URL of the next request, given the time as a text; none where the URL is too long.
    pub fn request_url(&self, now: &str) -> (url: Option<String>)
        ensures
            url is Some <==> address::has_room(
                self@,
                address::byte_len("t"@) + address::byte_len(address::hash_text(now@)),
            ),
            url matches Some(u) ==> {
                let asked = address::parts_of(
                    address::with_pair(self@, "t"@, address::hash_text(now@)),
                );
                &&& u@ == asked.text
                &&& asked == (PartsView {
                    text: asked.text,
                    query: address::parts_of(self@).query.push(("t"@, address::hash_text(now@))),
                    ..address::parts_of(self@)
                })
            },
    {
        match self.url.append_hash(now) {
            Some(url) => Some(url.text().to_owned()),
            None => None,
        }
    }
}

/// The URL under which a websocket is opened.
pub open spec fn websocket_address(url: AddressView) -> AddressView {
    address::with_pair(
        address::with_change(url, ChangeView::Scheme("ws"@)),
        "transport"@,
        "websocket"@,
    )
}

/// Whether there is room in a URL for the scheme and the name of the websocket transport.
pub open spec fn has_websocket_room(url: AddressView) -> bool {
    &&& address::has_room(url, address::byte_len("ws"@))
    &&& address::has_room(
        address::with_change(url, ChangeView::Scheme("ws"@)),
        address::byte_len("transport"@) + address::byte_len("websocket"@),
    )
}

/// Makes the URL under which a websocket is opened. It fails where the URL is too long, or cannot
/// have the scheme.
pub fn websocket_url(url: &Address) -> (result: Result<Address, Error>)
    ensures
        result is Ok <==> has_websocket_room(url@) && address::url_parts(
            url@.source,
            url@.changes.push(ChangeView::Scheme("ws"@)),
        ) is Some,
        result matches Ok(u) ==> u@ == websocket_address(url@) && address::parts_of(u@).path
            == address::parts_of(url@).path && address::parts_of(u@).query == address::parts_of(
            url@,
        ).query.push(("transport"@, "websocket"@)),
        result matches Err(e) ==> e == Error::InvalidUrl(),
        address::becomes_ws(url@, "ws"@) ==> (result is Ok <==> has_websocket_room(url@)),
        address::becomes_ws(url@, "ws"@) && address::is_short(url@) ==> result is Ok,
        result matches Ok(u) ==> (address::becomes_ws(url@, "ws"@) ==> address::parts_of(u@).scheme
            == "ws"@ && address::parts_of(u@).port == address::parts_of(url@).port),
{
    proof {
        reveal_strlit("ws");
        reveal_strlit("transport");
        reveal_strlit("websocket");
        is_ascii_chars_encode_utf8("ws"@);
        is_ascii_chars_encode_utf8("transport"@);
        is_ascii_chars_encode_utf8("websocket"@);
    }
    match url.change_scheme("ws") {
        None => Err(Error::InvalidUrl()),
        Some(url) => match url.append_pair("transport", "websocket") {
            Some(url) => Ok(url),
            None => Err(Error::InvalidUrl()),
        },
    }
}

/// The text message of a packet with text data.
pub open spec fn packet_text(ptype: PacketType, data: Seq<char>) -> Seq<char> {
    packet::type_text(ptype) + data
}

/// The text of a packet is the packet's encoding.
pub proof fn lemma_packet_text(ptype: PacketType, data: Seq<char>)
    requires
        ptype != PacketType::MessageBinary,
    ensures
        encode_utf8(packet_text(ptype, data)) == packet::encoded_packet(
            PacketView { ptype, data: encode_utf8(data) },
        ),
        valid_utf8(encode_utf8(packet_text(ptype, data))),
        decode_utf8(encode_utf8(packet_text(ptype, data))) == packet_text(ptype, data),
{
    text::lemma_utf8_concat(packet::type_text(ptype), data);
    packet::lemma_type_text_bytes(ptype);
    encode_utf8_valid_utf8(packet_text(ptype, data));
    encode_utf8_decode_utf8(packet_text(ptype, data));
}

/// Makes the text message of a packet with text data.
pub fn packet_message(ptype: PacketType, data: &str) -> (message: Message)
    requires
        ptype != PacketType::MessageBinary,
    ensures
        message@ == MessageView::Text(packet_text(ptype, data@)),
{
    proof {
        lemma_packet_text(ptype, data@);
    }
    let bytes = Vec::<u8>::from(Packet::new(ptype, text_bytes(data)));
    match Message::try_from(Data::Text(bytes)) {
        Ok(message) => message,
        Err(_) => Message::Text(String::new()),
    }
}

/// The message with which a client probes a websocket.
pub open spec fn probe() -> MessageView {
    MessageView::Text(packet_text(PacketType::Ping, "probe"@))
}

/// The message with which a server answers a probe.
pub open spec fn probe_answer() -> MessageView {
    MessageView::Text(packet_text(PacketType::Pong, "probe"@))
}

/// The message with which a client completes an upgrade.
pub open spec fn upgrade() -> MessageView {
    MessageView::Text(packet_text(PacketType::Upgrade, ""@))
}

/// What a client does when the answer to its probe comes: completes the upgrade, or gives up.
pub open spec fn after_probe(answer: Option<MessageView>) -> Result<MessageView, Error> {
    match answer {
        None => Err(Error::IllegalWebsocketUpgrade()),
        Some(answer) => if message_data(answer) == message_data(probe_answer()) {
            Ok(upgrade())
        } else {
            Err(Error::InvalidPacket())
        },
    }
}

/// What a server answers to the first message of an upgrade, if anything.
pub open spec fn answer_to(first: Option<MessageView>) -> Option<MessageView> {
    if first == Some(probe()) {
        Some(probe_answer())
    } else {
        None
    }
}

/// The message that opens an upgrade.
pub fn probe_message() -> (message: Message)
    ensures
        message@ == probe(),
{
    packet_message(PacketType::Ping, "probe")
}

/// Takes the answer to a probe, and gives the message that completes the upgrade.
pub fn complete_upgrade(answer: Option<Message>) -> (result: Result<Message, Error>)
    ensures
        message_outcome(result) == after_probe(message_view(answer)),
{
    match answer {
        None => Err(Error::IllegalWebsocketUpgrade()),
        Some(answer) => {
            let expected = packet_message(PacketType::Pong, "probe").into_data();
            if text::same_bytes(answer.into_data().as_slice(), expected.as_slice()) {
                Ok(packet_message(PacketType::Upgrade, ""))
            } else {
                Err(Error::InvalidPacket())
            }
        },
    }
}

/// Answers the first message of an upgrade.
pub fn answer_probe(first: &Option<Message>) -> (answer: Option<Message>)
    ensures
        message_view(answer) == answer_to(message_view(*first)),
{
    proof {
        lemma_upgrade_texts();
    }
    match first {
        Some(Message::Text(s)) => if text::same_text(s.as_str(), "2probe") {
            Some(packet_message(PacketType::Pong, "probe"))
        } else {
            None
        },
        _ => None,
    }
}

/// Tells from the second message whether an upgrade is complete.
pub fn finish_probe(second: &Option<Message>) -> (result: Result<(), Error>)
    ensures
        result is Ok <==> message_view(*second) == Some(upgrade()),
        result matches Err(e) ==> (e matches Error::InvalidHandShake(reason) && reason@
            == "upgrade missing packet"@),
{
    proof {
        lemma_upgrade_texts();
    }
    let complete = match second {
        Some(Message::Text(s)) => text::same_text(s.as_str(), "5"),
        _ => false,
    };
    if complete {
        Ok(())
    } else {
        Err(Error::InvalidHandShake("upgrade missing packet".to_owned()))
    }
}

/// The texts that pass in an upgrade.
pub proof fn lemma_upgrade_texts()
    ensures
        packet_text(PacketType::Ping, "probe"@) == "2probe"@,
        packet_text(PacketType::Pong, "probe"@) == "3probe"@,
        packet_text(PacketType::Upgrade, ""@) == "5"@,
{
    reveal_strlit("probe");
    reveal_strlit("2probe");
    reveal_strlit("3probe");
    reveal_strlit("5");
    reveal_strlit("");
    assert(packet_text(PacketType::Ping, "probe"@) =~= "2probe"@);
    assert(packet_text(PacketType::Pong, "probe"@) =~= "3probe"@);
    assert(packet_text(PacketType::Upgrade, ""@) =~= "5"@);
}

/// A server answers a client's probe with what makes the client complete the upgrade.
pub proof fn law_upgrade_succeeds()
    ensures
        answer_to(Some(probe())) is Some,
        after_probe(answer_to(Some(probe()))) == Ok::<MessageView, Error>(upgrade()),
{
}

/// A packet sent as text over a websocket arrives as the payload of that packet alone, if it can
/// stand in a payload.
pub proof fn law_websocket_text_arrives(p: PacketView)
    requires
        p.ptype != PacketType::MessageBinary,
        payload::fits_payload(p),
        valid_utf8(packet::encoded_packet(p)),
    ensures
        data_message(DataView::Text(packet::encoded_packet(p))) matches Some(m) && (received(m) matches Some(
            bytes,
        ) && payload::decoded_payload(bytes) == Ok::<Seq<PacketView>, Error>(seq![p])),
{
    let bytes = packet::encoded_packet(p);
    decode_utf8_encode_utf8(bytes);
    packet::law_text_packet_is_read_back(p);
    lemma_lone_packet(bytes, p);
}

/// Binary data sent over a websocket arrive as a message packet, unless there are none or they
/// hold the separator.
pub proof fn law_websocket_binary_arrives(data: Seq<u8>)
    requires
        data.len() > 0,
        !data.contains(SEPARATOR),
    ensures
        data_message(DataView::Binary(data)) matches Some(m) && (received(m) matches Some(bytes)
            && payload::decoded_payload(bytes) == Ok::<Seq<PacketView>, Error>(
            seq![PacketView { ptype: PacketType::Message, data }],
        )),
{
    let bytes = seq![packet::type_number(PacketType::Message)] + data;
    assert(bytes.skip(1) =~= data);
    lemma_lone_packet(bytes, PacketView { ptype: PacketType::Message, data });
}

/// A byte string without separators that decodes to a packet is the payload of that packet alone.
pub proof fn lemma_lone_packet(bytes: Seq<u8>, p: PacketView)
    requires
        packet::decoded_packet(bytes) == Ok::<PacketView, Error>(p),
        !bytes.skip(1).contains(SEPARATOR),
        bytes.len() > 0,
        bytes[0] != SEPARATOR,
    ensures
        payload::decoded_payload(bytes) == Ok::<Seq<PacketView>, Error>(seq![p]),
{
    assert forall|i: int| 0 <= i < bytes.len() implies bytes[i] != SEPARATOR by {
        if i > 0 {
            assert(bytes.skip(1)[i - 1] == bytes[i]);
            assert(bytes.skip(1).contains(bytes[i]));
        }
    }
    let parts = seq![bytes];
    assert(payload::separable(parts));
    payload::law_joined_parts_are_pieces(parts);
    assert(payload::joined(parts) == bytes);
    payload::law_decoded_packets_of_parts(parts, seq![p]);
}

/// Data make a message of the same bytes: text data a text message, if they are UTF-8, and binary
/// data a binary message.
pub proof fn law_data_become_a_message(bytes: Seq<u8>)
    ensures
        valid_utf8(bytes) ==> (data_message(DataView::Text(bytes)) matches Some(MessageView::Text(s))
            && encode_utf8(s) == bytes),
        !valid_utf8(bytes) ==> data_message(DataView::Text(bytes)) is None,
        data_message(DataView::Binary(bytes)) == Some(MessageView::Binary(bytes)),
{
    if valid_utf8(bytes) {
        decode_utf8_encode_utf8(bytes);
    }
}

/// What the messages of a websocket hold, and what those that come stand for: a text its bytes,
/// binary data the same behind the number four, and anything else nothing.
pub proof fn law_messages_by_kind(s: Seq<char>, data: Seq<u8>, reason: Option<Seq<char>>)
    ensures
        message_data(MessageView::Text(s)) == encode_utf8(s),
        message_data(MessageView::Binary(data)) == data,
        message_data(MessageView::Ping(data)) == data,
        message_data(MessageView::Pong(data)) == data,
        message_data(MessageView::Frame(data)) == data,
        message_data(MessageView::Close(Some(s))) == encode_utf8(s),
        message_data(MessageView::Close(None)).len() == 0,
        received(MessageView::Text(s)) == Some(encode_utf8(s)),
        received(MessageView::Binary(data)) == Some(seq![4u8] + data),
        received(MessageView::Ping(data)) is None,
        received(MessageView::Pong(data)) is None,
        received(MessageView::Frame(data)) is None,
        received(MessageView::Close(reason)) is None,
{
}

/// While polling, text data are the body as they are, and binary data are their base64 behind a `b`.
pub proof fn law_polling_body_of_data(bytes: Seq<u8>)
    ensures
        polling_body(DataView::Text(bytes)) == bytes,
        polling_body(DataView::Binary(bytes)).len() > 0,
        polling_body(DataView::Binary(bytes))[0] == 0x62,
        polling_body(DataView::Binary(bytes)).skip(1) == encode_utf8(binary::base64_text(bytes)),
{
    assert(polling_body(DataView::Binary(bytes)).skip(1) =~= encode_utf8(binary::base64_text(bytes)));
}

/// The text of a packet is the character of its type before the data.
pub proof fn law_packet_text(ptype: PacketType, data: Seq<char>)
    ensures
        packet_text(ptype, data).len() == data.len() + 1,
        packet_text(ptype, data)[0] == packet::type_text(ptype)[0],
        packet_text(ptype, data).skip(1) == data,
{
    packet::law_type_texts(ptype);
    assert(packet_text(ptype, data).skip(1) =~= data);
}

/// What passes in an upgrade: only the text `2probe` is answered, by `3probe`; any message with the
/// bytes of `3probe` has the client complete the upgrade by `5`, and any other has it give up.
pub proof fn law_upgrade_messages(message: MessageView)
    ensures
        probe() == MessageView::Text("2probe"@),
        probe_answer() == MessageView::Text("3probe"@),
        upgrade() == MessageView::Text("5"@),
        answer_to(None) is None,
        message == MessageView::Text("2probe"@) ==> answer_to(Some(message)) == Some(
            MessageView::Text("3probe"@),
        ),
        message != MessageView::Text("2probe"@) ==> answer_to(Some(message)) is None,
        after_probe(None) == Err::<MessageView, Error>(Error::IllegalWebsocketUpgrade()),
        message_data(message) == encode_utf8("3probe"@) ==> after_probe(Some(message)) == Ok::<
            MessageView,
            Error,
        >(MessageView::Text("5"@)),
        message_data(message) != encode_utf8("3probe"@) ==> after_probe(Some(message)) == Err::<
            MessageView,
            Error,
        >(Error::InvalidPacket()),
{
    lemma_upgrade_texts();
}

/// A polling client adds the name of its transport to the query of its URL, and a websocket client
/// changes the scheme first; nothing else is changed.
pub proof fn law_transport_urls(url: AddressView)
    ensures
        polling_url(url).source == url.source,
        polling_url(url).changes == url.changes.push(ChangeView::Pair("transport"@, "polling"@)),
        websocket_address(url).source == url.source,
        websocket_address(url).changes == url.changes.push(ChangeView::Scheme("ws"@)).push(
            ChangeView::Pair("transport"@, "websocket"@),
        ),
{
}

/// There is room for the name of a transport just where the bytes that it takes are left in a URL.
pub proof fn law_room_for_transport(url: AddressView)
    ensures
        has_polling_room(url) <==> encode_utf8(address::parts_of(url).text).len() + 56 <= 0xffff_ffff,
        has_websocket_room(url) ==> encode_utf8(address::parts_of(url).text).len() + 14 <= 0xffff_ffff,
{
    reveal_strlit("transport");
    reveal_strlit("polling");
    reveal_strlit("ws");
    is_ascii_chars_encode_utf8("transport"@);
    is_ascii_chars_encode_utf8("polling"@);
    is_ascii_chars_encode_utf8("ws"@);
}

}
