use std::sync::Arc;

use socketio::address::{query_pairs, Address};
use socketio::engineio::client::{ClientBuilder, TransportChoice};
use socketio::engineio::error::Error;
use socketio::engineio::header::HeaderMap;
use socketio::engineio::http::{parse_request_type, ReadRequest, RequestType};
use socketio::engineio::packet::{HandshakePacket, Packet, PacketType};
use socketio::engineio::polling::Polling;
use socketio::engineio::server::{ServerBuilder, ServerOption, SidGenerator};
use socketio::engineio::socket::{Action, Event, Socket};
use socketio::engineio::transports::Data;

fn client(url: &str) -> ClientBuilder {
    ClientBuilder::new(Address::parse(url).unwrap()).unwrap()
}

fn handshake(sid: &str, upgrades: Vec<&str>) -> HandshakePacket {
    HandshakePacket {
        sid: Arc::new(sid.to_owned()),
        upgrades: upgrades.into_iter().map(|s| s.to_owned()).collect(),
        ping_interval: 1,
        ping_timeout: 2,
        max_payload: 3,
    }
}

fn show(actions: &[Action]) -> Vec<String> {
    actions
        .iter()
        .map(|action| match action {
            Action::Notify(Event::OnOpen(sid)) => format!("open {}", sid),
            Action::Notify(Event::OnClose(sid)) => format!("close {}", sid),
            Action::Notify(Event::OnData(sid, data)) => format!("data {} {:?}", sid, data),
            Action::Notify(Event::OnPacket(sid, packet)) => {
                format!("packet {} {:?}", sid, packet.ptype)
            }
            Action::Notify(Event::OnError(sid, text)) => format!("error {} {}", sid, text),
            Action::Send(Data::Text(data)) => {
                format!("send {}", String::from_utf8(data.clone()).unwrap())
            }
            Action::Send(Data::Binary(data)) => format!("send binary {:?}", data),
        })
        .collect()
}

#[test]
fn client_opens_and_pongs() {
    let mut socket = Socket::new(handshake("s", vec![]), true, true, false, 5);
    assert!(!socket.is_connected());
    assert_eq!(*socket.sid(), "s");
    assert_eq!(show(&socket.connect()), vec!["open s"]);
    assert!(socket.is_connected());
    assert_eq!(show(&socket.finish_connect(7)), vec!["send 3"]);
    assert_eq!(socket.last_ping(), 7);
    assert_eq!(socket.last_pong(), 5);
}

#[test]
fn server_end_does_not_pong() {
    let mut socket = Socket::new(handshake("s", vec![]), false, false, true, 5);
    assert!(show(&socket.connect()).is_empty());
    assert!(show(&socket.finish_connect(7)).is_empty());
    let ping = Packet::new(PacketType::Ping, vec![]);
    assert!(show(&socket.handle_incoming_packet(ping, 9)).is_empty());
    assert_eq!(socket.last_ping(), 9);
    assert_eq!(socket.last_pong(), 9);
}

#[test]
fn emit_before_open_is_refused() {
    let socket = Socket::new(handshake("s", vec![]), true, true, false, 0);
    let (actions, result) = socket.emit(Packet::new(PacketType::Message, b"a".to_vec()));
    assert_eq!(show(&actions), vec!["error s Illegal action before open"]);
    assert_eq!(result.unwrap_err(), Error::IllegalActionBeforeOpen());
    assert!(socket.disconnect().is_none());
}

#[test]
fn emit_sends() {
    let mut socket = Socket::new(handshake("s", vec![]), true, true, false, 0);
    socket.connect();
    let (actions, result) = socket.emit(Packet::new(PacketType::Message, b"a".to_vec()));
    assert_eq!(show(&actions), vec!["send 4a"]);
    assert!(result.is_ok());
    let (actions, _) = socket.emit(Packet::new(PacketType::MessageBinary, vec![1]));
    assert_eq!(show(&actions), vec!["send binary [1]"]);
    assert_eq!(
        show(&socket.on_error("broken".to_owned())),
        vec!["error s broken"]
    );
}

#[test]
fn incoming_packets() {
    let mut socket = Socket::new(handshake("s", vec![]), true, true, false, 0);
    socket.connect();
    let payload = b"4a\x1e2x\x1e5\x1ebSGk=\x1e1\x1e1\x1e2".to_vec();
    let packets = Socket::parse_payload(payload).unwrap();
    assert_eq!(packets.len(), 7);
    let mut actions = Vec::new();
    for (i, packet) in packets.into_iter().enumerate() {
        // the connection is open until the close packet is taken
        assert_eq!(socket.is_connected(), i <= 4);
        actions.extend(socket.handle_incoming_packet(packet, 11));
    }
    assert_eq!(
        show(&actions),
        vec![
            "packet s Message",
            "data s [97]",
            "packet s Ping",
            "send 3x",
            "packet s Upgrade",
            "packet s MessageBinary",
            "data s [72, 105]",
            "packet s Close",
            "close s",
            "packet s Close",
            "packet s Ping",
            "error s Illegal action before open",
        ]
    );
    assert!(!socket.is_connected());
    assert_eq!(socket.last_pong(), 11);
    assert_eq!(Socket::parse_payload(Vec::new()).unwrap_err(), Error::IncompletePacket());
}

#[test]
fn disconnect_tells_both_ends() {
    let mut socket = Socket::new(handshake("s", vec![]), true, true, false, 0);
    socket.connect();
    assert_eq!(
        show(&socket.disconnect().unwrap()),
        vec!["close s", "send 1"]
    );
    assert!(socket.is_connected());
    socket.finish_disconnect();
    assert!(!socket.is_connected());
    assert!(show(&socket.handle_close()).is_empty());
}

#[test]
fn client_builder_urls() {
    let builder = client("http://localhost:4205");
    assert_eq!(builder.url(), "http://localhost:4205/engine.io/?EIO=4");
    assert_eq!(builder.channel_size(), 100);
    assert!(builder.header_map().is_none());
    assert!(builder.needs_handshake());
    let builder = client("http://localhost/x?a=1").channel_buf(7);
    assert_eq!(builder.url(), "http://localhost/x?a=1&EIO=4");
    assert_eq!(builder.channel_size(), 7);
    assert!(Address::parse("localhost").is_none());
}

#[test]
fn client_handshake() {
    assert_eq!(
        ClientBuilder::handshake_payload(Some(b"0{}".to_vec())).unwrap(),
        b"{}".to_vec()
    );
    assert_eq!(
        ClientBuilder::handshake_payload(None).unwrap_err(),
        Error::IncompletePacket()
    );
    assert_eq!(
        ClientBuilder::handshake_payload(Some(b"x".to_vec())).unwrap_err(),
        Error::InvalidPacketType(b'x')
    );

    let mut builder = client("http://localhost/");
    builder.accept_handshake(handshake("a b", vec!["WebSocket"])).unwrap();
    assert_eq!(builder.url(), "http://localhost/engine.io/?EIO=4&sid=a+b");
    // no need to handshake twice
    builder.accept_handshake(handshake("c", vec![])).unwrap();
    assert_eq!(builder.url(), "http://localhost/engine.io/?EIO=4&sid=a+b");
    assert_eq!(
        builder.build_polling().unwrap().url(),
        "http://localhost/engine.io/?EIO=4&sid=a+b&transport=polling"
    );
    assert_eq!(builder.build(), TransportChoice::Websocket);
    let plan = builder.build_websocket_with_upgrade().unwrap();
    assert!(plan.upgrade);
    assert_eq!(
        plan.url,
        "ws://localhost/engine.io/?EIO=4&sid=a+b&transport=websocket"
    );
    let socket = builder.should_pong(false).into_socket(3);
    assert_eq!(*socket.sid(), "a b");
}

#[test]
fn server_handshake_is_read_back() {
    let body = Polling::handshake_body("{\"sid\":\"s\"}");
    assert_eq!(
        ClientBuilder::handshake_payload(Some(body.into_bytes())).unwrap(),
        b"{\"sid\":\"s\"}".to_vec()
    );
}

#[test]
fn server_reads_the_query_of_a_client() {
    let mut builder = client("http://h/?x=1");
    builder.accept_handshake(handshake("a&b", vec![])).unwrap();
    let transport = builder.build_polling().unwrap();
    let url = transport.request_url("now").unwrap();
    let request = format!("GET {} HTTP/1.1\r\n\r\n", &url["http://h".len()..]);
    match parse_request_type(request.as_bytes(), "127.0.0.1:1") {
        ReadRequest::Whole(Some(RequestType::PollingGet(sid))) => assert_eq!(*sid, "a&b"),
        _ => panic!("not a get"),
    }
}

#[test]
fn client_without_upgrade() {
    let mut builder = client("http://localhost/");
    assert!(!builder.websocket_upgrade());
    assert_eq!(builder.build(), TransportChoice::Polling);
    builder.accept_handshake(handshake("s", vec!["polling"])).unwrap();
    assert_eq!(
        builder.build_websocket_with_upgrade().unwrap_err(),
        Error::IllegalWebsocketUpgrade()
    );
    let direct = client("ws://localhost/");
    assert!(!direct.build_websocket().unwrap().upgrade);
    let elsewhere = client("http://localhost:4200/x");
    assert_eq!(elsewhere.url(), "http://localhost:4200/x?EIO=4");
    assert_eq!(
        elsewhere.build_websocket().unwrap().url,
        "ws://localhost:4200/x?EIO=4&transport=websocket"
    );
    let secure = client("https://localhost/");
    assert_eq!(
        secure.build_websocket().unwrap_err(),
        Error::InvalidUrlScheme("https".to_owned())
    );
}

#[test]
fn client_headers() {
    let mut headers = HeaderMap::new();
    headers.insert("a".to_owned(), "1".to_owned());
    headers.insert("a".to_owned(), "2".to_owned());
    headers.insert("b".to_owned(), "3".to_owned());
    let builder = client("http://localhost/").headers(headers);
    let headers = builder.header_map().as_ref().unwrap();
    assert_eq!(headers.get("a").unwrap(), "2");
    assert!(headers.get("c").is_none());
    let mut names = headers.names();
    names.sort();
    assert_eq!(names, vec!["a", "b"]);
}

#[test]
fn changed_urls() {
    let url = |text: &str| Address::parse(text).unwrap();
    let changed = url("http://a/?x=1#f").append_pair("k&", "v=é").unwrap();
    assert_eq!(changed.text(), "http://a/?x=1&k%26=v%3D%C3%A9#f");
    let pair = |k: &str, v: &str| (k.to_owned(), v.to_owned());
    assert_eq!(changed.into_query(), vec![pair("x", "1"), pair("k&", "v=é")]);
    assert_eq!(query_pairs("http://a/?x=1").unwrap(), vec![pair("x", "1")]);
    assert!(query_pairs("a").is_none());
    assert!(Address::parse("a").is_none());
    for (text, changed, path) in [
        ("http://a?x=1", "http://a/p/?x=1", "/p/"),
        ("http://a/b", "http://a/b", "/b"),
        ("foo:/?x=1", "foo:/p/?x=1", "/p/"),
        ("file:///?x=1", "file:///p/?x=1", "/p/"),
        ("foo://a:1/?x=1#f", "foo://a:1/p/?x=1#f", "/p/"),
    ] {
        let address = url(text).set_default_path("/p/").unwrap();
        assert_eq!((address.text(), address.path()), (changed, path));
    }
    // whatever the path, the query stays
    let odd = url("foo:/?x=1").set_default_path("//[").unwrap();
    assert_eq!(odd.into_query(), vec![pair("x", "1")]);
    let changed = url("http://a:81/").change_scheme("ws").unwrap();
    assert_eq!(changed.text(), "ws://a:81/");
    assert_eq!((changed.scheme(), changed.port()), ("ws", Some(81)));
    assert!(url("http://a/").change_scheme("nosuch").is_none());
    assert_eq!(url("http://a/").append_hash("").unwrap().text(), "http://a/?t=1");
}

#[test]
fn server_addresses() {
    for (text, changed) in [
        ("http://a", "http://a/"),
        ("https://a?x=1", "https://a:80/?x=1"),
        ("https://a:443/b", "https://a/b"),
        ("wss://a:80/b", "wss://a:80/b"),
        ("ws://a:81/b", "ws://a:81/b"),
        ("foo://a", "foo://a"),
    ] {
        assert_eq!(Address::parse_server(text).unwrap().text(), changed);
    }
    assert!(Address::parse_server("a").is_none());
}

#[test]
fn a_host_that_grows_beyond_what_is_read_again() {
    let mut text = "http://".to_owned();
    for i in 0..1000 {
        text.push(char::from_u32(0x4e00 + 20 * i).unwrap());
    }
    let address = Address::parse(&text).unwrap();
    assert!(Address::parse(address.text()).is_none());
    let mut builder = ClientBuilder::new(address).unwrap();
    assert!(builder.url().ends_with("/engine.io/?EIO=4"));
    builder.accept_handshake(handshake("s", vec!["websocket"])).unwrap();
    let url = builder.build_polling().unwrap().request_url("").unwrap();
    assert!(url.ends_with("/engine.io/?EIO=4&sid=s&transport=polling&t=1"));
    let plan = builder.build_websocket().unwrap();
    assert!(plan.url.starts_with("ws://xn--"));
    assert!(plan.url.ends_with("/engine.io/?EIO=4&sid=s&transport=websocket"));
}

#[test]
fn server_sessions() {
    let mut generator = SidGenerator::default();
    assert_eq!(*generator.generate(), "MA==");
    assert_eq!(*generator.generate(), "MQ==");

    let option = ServerOption::default();
    assert_eq!(
        (option.ping_timeout, option.ping_interval, option.max_payload),
        (25000, 20000, 1024)
    );
    let mut server = ServerBuilder::new(80)
        .server_option(ServerOption {
            ping_timeout: 20,
            ping_interval: 30,
            max_payload: 40,
        })
        .polling_buffer(5)
        .event_size(6)
        .build();
    assert_eq!(server.port(), 80);
    assert_eq!(server.polling_buffer(), 5);
    assert_eq!(server.event_size(), 6);
    assert_eq!(server.server_option().ping_interval, 30);
    assert_eq!(server.max_payload(), 1000);

    let sid = server.generate_sid();
    assert_eq!(*sid, "MA==");
    let packet = server.handshake_packet(vec!["websocket".to_owned()], None);
    assert_eq!(*packet.sid, "MQ==");
    assert_eq!(
        (packet.ping_timeout, packet.ping_interval, packet.max_payload),
        (20, 30, 40)
    );
    let packet = server.handshake_packet(vec![], Some(sid.clone()));
    assert_eq!(packet.sid, sid);
    assert_eq!(*server.generate_sid(), "Mg==");
}

#[test]
fn server_keeps_live_connections() {
    let mut server = ServerBuilder::new(80)
        .server_option(ServerOption {
            ping_timeout: 20,
            ping_interval: 30,
            max_payload: 40,
        })
        .build();
    let sid = server.generate_sid();
    let (actions, result) = server.ping(&sid);
    assert!(actions.is_empty() && result.is_ok());
    assert!(!server.keeps(&sid, true, 0));

    let (socket, actions) = server.open_socket(sid.clone(), 100);
    assert_eq!(show(&actions), vec!["open MA=="]);
    let (actions, replaced) = server.store_socket(&sid, socket, 100);
    assert!(show(&actions).is_empty());
    assert!(replaced.is_none());
    assert_eq!(server.last_pong(&sid), Some(100));
    assert_eq!(show(&server.ping(&sid).0), vec!["send 2"]);
    assert_eq!(show(&server.drain_polling(&sid)), vec!["send 6"]);
    assert!(server.keeps(&sid, true, 149));
    assert!(!server.keeps(&sid, true, 150));
    assert!(!server.keeps(&sid, false, 100));
    assert!(server.keeps(&sid, true, 0));

    let pong = Packet::new(PacketType::Pong, vec![]);
    let actions = server.handle_incoming_packet(&sid, pong.clone(), 140).unwrap();
    assert_eq!(show(&actions), vec!["packet MA== Pong"]);
    assert!(server.keeps(&sid, true, 189));
    assert_eq!(server.last_pong(&sid), Some(140));

    // another connection of the session takes the place of the first
    let (socket, _) = server.open_socket(sid.clone(), 141);
    let (_, replaced) = server.store_socket(&sid, socket, 141);
    assert_eq!(replaced.unwrap().last_pong(), 140);
    assert_eq!(server.last_pong(&sid), Some(141));

    let (socket, actions) = server.close_socket(&sid).unwrap();
    assert!(socket.is_connected());
    assert_eq!(show(&actions.unwrap()), vec!["close MA==", "send 1"]);
    assert!(server.socket(&sid).is_none());
    assert!(server.close_socket(&sid).is_none());
    assert!(server.handle_incoming_packet(&sid, pong, 150).is_none());
    assert!(server.disconnect(&sid).is_none());
    let (actions, result) = server.emit(&sid, Packet::noop());
    assert!(actions.is_empty() && result.is_ok());
}

#[test]
fn a_connection_that_a_server_closes_is_still_kept() {
    let mut server = ServerBuilder::new(80).build();
    let sid = server.generate_sid();
    let (socket, _) = server.open_socket(sid.clone(), 0);
    server.store_socket(&sid, socket, 0);
    let actions = server.disconnect(&sid).unwrap();
    assert_eq!(show(&actions), vec!["close MA==", "send 1"]);
    // until that is done, the connection is open
    assert!(server.socket(&sid).unwrap().is_connected());
    server.finish_disconnect(&sid);
    assert!(!server.socket(&sid).unwrap().is_connected());
    assert!(server.disconnect(&sid).is_none());
    assert!(server.close_socket(&sid).unwrap().1.is_none());
    server.finish_disconnect(&sid);
    assert!(server.socket(&sid).is_none());
}

#[test]
fn handshakes_of_transports() {
    let mut server = ServerBuilder::new(80).build();
    let sid = server.generate_sid();
    let packet = server.polling_handshake(sid.clone());
    assert_eq!((&packet.sid, packet.upgrades), (&sid, vec!["websocket".to_owned()]));
    assert_eq!(packet.ping_interval, server.server_option().ping_interval);
    let packet = server.websocket_handshake(sid.clone());
    assert_eq!(packet.sid, sid);
    assert!(packet.upgrades.is_empty());
}
