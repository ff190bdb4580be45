use std::collections::VecDeque;

use socketio::binary::DecodeError;
use socketio::address::Address;
use socketio::engineio::error::Error;
use socketio::engineio::packet::{Packet, PacketType};
use socketio::engineio::payload::{build_polling_payload, join_polling, Payload};
use socketio::engineio::transports::{
    answer_probe, check_status, complete_upgrade, finish_probe, into_polling_body, packet_message,
    probe_message, websocket_url, ClientPollingTransport, Data, Message,
};
use socketio::text::{decimal_text, parse_usize, same_bytes, same_text};

#[test]
fn test_packet_error() {
    let err = Packet::try_from(Vec::with_capacity(10));
    assert!(err.is_err())
}

#[test]
fn test_is_reflexive() {
    let data = b"1Hello World".to_vec();
    let packet = Packet::try_from(data).unwrap();

    assert_eq!(packet.ptype, PacketType::Close);
    assert_eq!(packet.data, b"Hello World".to_vec());

    let data = b"1Hello World".to_vec();
    assert_eq!(Vec::<u8>::from(packet), data);
}

#[test]
fn test_binary_packet() {
    // SGVsbG8= is the encoded string for 'Hello'
    let data = b"bSGVsbG8=".to_vec();
    let packet = Packet::try_from(data.clone()).unwrap();

    assert_eq!(packet.ptype, PacketType::MessageBinary);
    assert_eq!(packet.data, b"Hello".to_vec());

    assert_eq!(Vec::<u8>::from(packet), data);
}

#[test]
fn test_decode_payload() -> Result<(), Error> {
    let data = b"1Hello\x1e1HelloWorld".to_vec();
    let packets = Payload::try_from(data)?;

    assert_eq!(packets.index(0).ptype, PacketType::Close);
    assert_eq!(packets.index(0).data, b"Hello".to_vec());
    assert_eq!(packets.index(1).ptype, PacketType::Close);
    assert_eq!(packets.index(1).data, b"HelloWorld".to_vec());

    let data = "1Hello\x1e1HelloWorld".to_owned().into_bytes();
    assert_eq!(Vec::<u8>::try_from(packets).unwrap(), data);

    Ok(())
}

#[test]
fn test_binary_payload() {
    let data = b"bSGVsbG8=\x1ebSGVsbG9Xb3JsZA==\x1ebSGVsbG8=".to_vec();
    let packets = Payload::try_from(data.clone()).unwrap();

    assert!(packets.len() == 3);
    assert_eq!(packets.index(0).ptype, PacketType::MessageBinary);
    assert_eq!(packets.index(0).data, b"Hello".to_vec());
    assert_eq!(packets.index(1).ptype, PacketType::MessageBinary);
    assert_eq!(packets.index(1).data, b"HelloWorld".to_vec());
    assert_eq!(packets.index(2).ptype, PacketType::MessageBinary);
    assert_eq!(packets.index(2).data, b"Hello".to_vec());

    assert_eq!(Vec::<u8>::try_from(packets).unwrap(), data);
}

#[test]
fn test_packet_type_conversion_and_incompl_packet() {
    let sut = Packet::try_from(b"4".to_vec());
    assert!(sut.is_err());
    let sut = sut.unwrap_err();
    assert!(matches!(sut, Error::IncompletePacket()));

    let sut = PacketType::try_from(b'0');
    assert!(sut.is_ok());
    assert_eq!(sut.unwrap(), PacketType::Open);

    let sut = PacketType::try_from(b'1');
    assert!(sut.is_ok());
    assert_eq!(sut.unwrap(), PacketType::Close);

    let sut = PacketType::try_from(b'2');
    assert!(sut.is_ok());
    assert_eq!(sut.unwrap(), PacketType::Ping);

    let sut = PacketType::try_from(b'3');
    assert!(sut.is_ok());
    assert_eq!(sut.unwrap(), PacketType::Pong);

    let sut = PacketType::try_from(b'4');
    assert!(sut.is_ok());
    assert_eq!(sut.unwrap(), PacketType::Message);

    let sut = PacketType::try_from(b'5');
    assert!(sut.is_ok());
    assert_eq!(sut.unwrap(), PacketType::Upgrade);

    let sut = PacketType::try_from(b'6');
    assert!(sut.is_ok());
    assert_eq!(sut.unwrap(), PacketType::Noop);

    let sut = PacketType::try_from(42);
    assert!(sut.is_err());
    assert!(matches!(sut.unwrap_err(), Error::InvalidPacketType(42)));
}

#[test]
fn test_build_polling_payload() {
    let byte_vec = VecDeque::new();
    let payload = build_polling_payload(byte_vec);
    assert!(payload.is_none());

    let data = b"Hello\x1eHelloWorld\x1eYkhlbGxv";

    let mut byte_vec = VecDeque::new();
    byte_vec.push_back(b"Hello".to_vec());
    byte_vec.push_back(b"HelloWorld".to_vec());
    byte_vec.push_back(b"bHello".to_vec());
    let payload = build_polling_payload(byte_vec);

    assert!(payload.is_some());
    let payload = payload.unwrap();
    assert_eq!(payload.as_bytes(), data);
}

#[test]
fn polling_transport_url() -> Result<(), Error> {
    let url = Address::parse("http://127.0.0.1").unwrap();
    let transport = ClientPollingTransport::new(&url).unwrap();
    assert_eq!(transport.url(), url.text().to_string() + "?transport=polling");
    Ok(())
}

#[test]
fn polling_requests_carry_a_hash() {
    let url = Address::parse("http://127.0.0.1").unwrap();
    let transport = ClientPollingTransport::new(&url).unwrap();
    // the Adler-32 hash of "Wikipedia" is 0x11e60398
    assert_eq!(
        transport.request_url("Wikipedia").unwrap(),
        "http://127.0.0.1/?transport=polling&t=300286872"
    );
}

#[test]
fn empty_and_unknown_packets() {
    assert_eq!(
        Packet::try_from(Vec::new()).unwrap_err(),
        Error::IncompletePacket()
    );
    assert_eq!(
        Packet::try_from(b"x".to_vec()).unwrap_err(),
        Error::InvalidPacketType(b'x')
    );
    assert_eq!(
        Packet::try_from(b"6".to_vec()).unwrap(),
        Packet::noop()
    );
    // only a message needs data
    assert_eq!(
        Packet::try_from(b"b".to_vec()).unwrap(),
        Packet::new(PacketType::MessageBinary, Vec::new())
    );
}

#[test]
fn base64_errors() {
    assert_eq!(
        Packet::try_from(b"bSG!s".to_vec()).unwrap_err(),
        Error::InvalidBase64(DecodeError::InvalidByte(2, b'!'))
    );
    assert_eq!(
        Packet::try_from(b"bA".to_vec()).unwrap_err(),
        Error::InvalidBase64(DecodeError::InvalidLength)
    );
    assert_eq!(
        Packet::try_from(b"bAB==".to_vec()).unwrap_err(),
        Error::InvalidBase64(DecodeError::InvalidLastSymbol(1, b'B'))
    );
    assert_eq!(
        Packet::from_base64(Ok(vec![1, 2])).unwrap().data,
        vec![1, 2]
    );
    assert!(Packet::from_base64(Err(DecodeError::InvalidLength)).is_err());
}

#[test]
fn type_texts_and_numbers() {
    let types = vec![
        (PacketType::Open, 0, "0"),
        (PacketType::Close, 1, "1"),
        (PacketType::Ping, 2, "2"),
        (PacketType::Pong, 3, "3"),
        (PacketType::Message, 4, "4"),
        (PacketType::MessageBinary, 4, "b"),
        (PacketType::Upgrade, 5, "5"),
        (PacketType::Noop, 6, "6"),
    ];
    for (ptype, number, text) in types {
        assert_eq!(u8::from(ptype), number);
        assert_eq!(String::from(ptype), text);
        if ptype != PacketType::MessageBinary {
            assert_eq!(PacketType::try_from(number).unwrap(), ptype);
        }
        let framed = Packet::framed(ptype, b"x");
        assert_eq!(framed, (text.to_owned() + "x").into_bytes());
    }
}

#[test]
fn payload_stops_at_first_bad_packet() {
    assert_eq!(
        Payload::try_from(b"4a\x1e\x1ex".to_vec()).unwrap_err(),
        Error::IncompletePacket()
    );
    assert_eq!(
        Payload::try_from(b"4a\x1ex\x1e".to_vec()).unwrap_err(),
        Error::InvalidPacketType(b'x')
    );
    assert!(Payload::try_from(Vec::new()).is_err());
}

#[test]
fn payload_hands_out_its_packets() {
    let payload = Payload::try_from(b"4a\x1e2\x1ebSGVsbG8=".to_vec()).unwrap();
    let mut iter = payload.into_iter();
    assert_eq!(
        iter.next().unwrap(),
        Packet::new(PacketType::Message, b"a".to_vec())
    );
    assert_eq!(iter.next().unwrap().ptype, PacketType::Ping);
    assert_eq!(iter.next().unwrap().data, b"Hello".to_vec());
    assert!(iter.next().is_none());

    // the mark of binary data alone is a packet without data
    let lone = Packet::try_from(b"b".to_vec()).unwrap();
    assert_eq!(lone, Packet::new(PacketType::MessageBinary, vec![]));
}

#[test]
fn polling_items_without_text() {
    // an empty item spoils the whole
    let mut items = VecDeque::new();
    items.push_back(b"4a".to_vec());
    items.push_back(Vec::new());
    assert!(build_polling_payload(items).is_none());

    // what is no text leaves nothing
    let mut items = VecDeque::new();
    items.push_back(vec![0xff]);
    assert!(build_polling_payload(items).is_none());

    let mut items = VecDeque::new();
    items.push_back(vec![0xff]);
    items.push_back(b"4a".to_vec());
    assert_eq!(build_polling_payload(items).unwrap(), "\x1e4a");

    // binary data alone is a body, though it is no text
    let mut items = VecDeque::new();
    items.push_back(vec![b'b', 0xff]);
    assert_eq!(build_polling_payload(items).unwrap(), "Yv8=");
    assert!(build_polling_payload(VecDeque::new()).is_none());

    assert_eq!(join_polling(&vec!["4a".to_owned(), "2".to_owned()]).unwrap(), "4a\x1e2");
    assert!(join_polling(&vec![]).is_none());
}

#[test]
fn polling_text_is_read_back() {
    let mut items = VecDeque::new();
    items.push_back(b"4a".to_vec());
    items.push_back(b"3probe".to_vec());
    let body = build_polling_payload(items).unwrap();
    let packets = Payload::try_from(body.into_bytes()).unwrap().into_packets();
    assert_eq!(packets[0].data, b"a".to_vec());
    assert_eq!(packets[1].ptype, PacketType::Pong);
}

#[test]
fn polling_bodies() {
    assert_eq!(into_polling_body(Data::Text(b"4a".to_vec())), b"4a".to_vec());
    let body = into_polling_body(Data::Binary(b"Hello".to_vec()));
    assert_eq!(body, b"bSGVsbG8=".to_vec());
    assert_eq!(Packet::try_from(body).unwrap().data, b"Hello".to_vec());
}

#[test]
fn statuses() {
    assert!(check_status(200).is_ok());
    assert_eq!(
        check_status(404).unwrap_err(),
        Error::InvalidHttpResponseStatus(404)
    );
}

#[test]
fn messages_of_data() {
    assert_eq!(
        Message::try_from(Data::Text(b"4a".to_vec())).unwrap(),
        Message::Text("4a".to_owned())
    );
    assert_eq!(
        Message::try_from(Data::Text(vec![0xff])).unwrap_err(),
        Error::Utf8Error("invalid utf-8 sequence of 1 bytes from index 0".to_owned())
    );
    assert_eq!(
        Message::try_from(Data::Binary(vec![0xff])).unwrap(),
        Message::Binary(vec![0xff])
    );
}

#[test]
fn data_of_messages() {
    assert_eq!(Message::Text("é".to_owned()).into_data(), "é".as_bytes().to_vec());
    assert_eq!(Message::Close(None).into_data(), Vec::<u8>::new());
    assert_eq!(
        Message::Close(Some("bye".to_owned())).into_data(),
        b"bye".to_vec()
    );
    assert_eq!(Message::Ping(vec![1]).into_data(), vec![1]);
    assert_eq!(Message::Pong(vec![2]).into_data(), vec![2]);
    assert_eq!(Message::Frame(vec![3]).into_data(), vec![3]);

    assert_eq!(
        Message::Text("4a".to_owned()).into_received().unwrap(),
        b"4a".to_vec()
    );
    assert_eq!(
        Message::Binary(vec![7, 8]).into_received().unwrap(),
        vec![4, 7, 8]
    );
    assert!(Message::Ping(vec![1]).into_received().is_none());
    assert!(Message::Close(None).into_received().is_none());
}

#[test]
fn websocket_binary_arrives_as_message() {
    let message = Message::try_from(Data::Binary(b"Hello".to_vec())).unwrap();
    let bytes = message.into_received().unwrap();
    let packets = Payload::try_from(bytes).unwrap().into_packets();
    assert_eq!(
        packets,
        vec![Packet::new(PacketType::Message, b"Hello".to_vec())]
    );
}

#[test]
fn websocket_text_arrives() {
    let packet = Packet::new(PacketType::Message, b"Hello".to_vec());
    let message = Message::try_from(Data::Text(Vec::<u8>::from(packet.clone()))).unwrap();
    let bytes = message.into_received().unwrap();
    assert_eq!(Payload::try_from(bytes).unwrap().into_packets(), vec![packet]);
}

#[test]
fn upgrade_exchange() {
    assert_eq!(probe_message(), Message::Text("2probe".to_owned()));
    let answer = answer_probe(&Some(probe_message())).unwrap();
    assert_eq!(answer, Message::Text("3probe".to_owned()));
    let upgrade = complete_upgrade(Some(answer)).unwrap();
    assert_eq!(upgrade, Message::Text("5".to_owned()));
    assert!(finish_probe(&Some(upgrade)).is_ok());
}

#[test]
fn upgrade_failures() {
    assert_eq!(
        complete_upgrade(None).unwrap_err(),
        Error::IllegalWebsocketUpgrade()
    );
    assert_eq!(
        complete_upgrade(Some(Message::Text("4".to_owned()))).unwrap_err(),
        Error::InvalidPacket()
    );
    // only the data of the answer count
    assert!(complete_upgrade(Some(Message::Binary(b"3probe".to_vec()))).is_ok());
    assert!(answer_probe(&Some(Message::Text("2".to_owned()))).is_none());
    assert!(answer_probe(&Some(Message::Binary(b"2probe".to_vec()))).is_none());
    assert!(answer_probe(&None).is_none());
    let missing = Error::InvalidHandShake("upgrade missing packet".to_owned());
    assert_eq!(finish_probe(&None).unwrap_err(), missing);
    assert_eq!(
        finish_probe(&Some(Message::Binary(b"5".to_vec()))).unwrap_err(),
        missing
    );
}

#[test]
fn open_message() {
    assert_eq!(
        packet_message(PacketType::Open, "{}"),
        Message::Text("0{}".to_owned())
    );
}

#[test]
fn websocket_urls() {
    let url = Address::parse("http://localhost:4200/engine.io/?EIO=4").unwrap();
    assert_eq!(
        websocket_url(&url).unwrap().text(),
        "ws://localhost:4200/engine.io/?EIO=4&transport=websocket"
    );
    let url = Address::parse("mailto:a@b").unwrap();
    assert_eq!(websocket_url(&url).unwrap_err(), Error::InvalidUrl());
}

#[test]
fn error_messages() {
    let messages = vec![
        (Error::InvalidPacketType(7), "Invalid packet type: 7"),
        (Error::InvalidPacket(), "Invalid packet"),
        (Error::IncompletePacket(), "Incomplete packet"),
        (
            Error::InvalidBase64(DecodeError::InvalidByte(3, 255)),
            "Invalid base 64: Invalid byte 255, offset 3.",
        ),
        (
            Error::InvalidBase64(DecodeError::InvalidLength),
            "Invalid base 64: Encoded text cannot have a 6-bit remainder.",
        ),
        (
            Error::InvalidBase64(DecodeError::InvalidLastSymbol(1, 66)),
            "Invalid base 64: Invalid last symbol 66, offset 1.",
        ),
        (Error::Utf8Error("x".to_owned()), "Utf8 error: x"),
        (Error::InvalidUrl(), "Invalid url"),
        (
            Error::InvalidHandShake("x".to_owned()),
            "Invalid hand shake: x",
        ),
        (
            Error::InvalidHttpResponseStatus(500),
            "Invalid http resposne status: 500",
        ),
        (
            Error::IllegalWebsocketUpgrade(),
            "Server not allow upgrading to websocket",
        ),
        (
            Error::IllegalActionBeforeOpen(),
            "Illegal action before open",
        ),
        (
            Error::InvalidUrlScheme("https".to_owned()),
            "Invalid url scheme: https",
        ),
    ];
    for (error, message) in messages {
        assert_eq!(error.text(), message);
    }
}

#[test]
fn numbers_as_text() {
    assert_eq!(decimal_text(0), "0");
    assert_eq!(decimal_text(u64::MAX), "18446744073709551615");
    assert_eq!(parse_usize("0042"), Some(42));
    assert_eq!(parse_usize("+7"), Some(7));
    assert_eq!(parse_usize(""), None);
    assert_eq!(parse_usize("+"), None);
    assert_eq!(parse_usize("-1"), None);
    assert_eq!(parse_usize("1 "), None);
    assert_eq!(parse_usize("99999999999999999999999"), None);
    assert_eq!(parse_usize(&decimal_text(usize::MAX as u64)), Some(usize::MAX));
    assert!(same_text("é", "é"));
    assert!(!same_text("e", "é"));
    assert!(!same_bytes(&[1], &[1, 2]));
}
