use std::collections::VecDeque;
use std::sync::Arc;

use socketio::engineio::http::{
    classify, parse_request_type, ReadRequest, RequestHead, RequestType,
};
use socketio::engineio::polling::{handshake_message, route, Polling, PollingStep, Route};
use socketio::engineio::response::http_response;
use socketio::engineio::transports::Message;

const ADDR: &str = "127.0.0.1:4200";

fn ask(request: &str) -> Option<RequestType> {
    match parse_request_type(request.as_bytes(), ADDR) {
        ReadRequest::Whole(request) => request,
        ReadRequest::Truncated => panic!("truncated"),
    }
}

#[test]
fn polling_open_request() {
    let request = ask("GET /engine.io/?EIO=4&transport=polling HTTP/1.1\r\nHost: a\r\n\r\n");
    assert!(matches!(request, Some(RequestType::PollingOpen)));
    assert!(matches!(
        Polling::handle(request),
        PollingStep::Open
    ));
}

#[test]
fn polling_get_request() {
    let request = ask("GET /engine.io/?EIO=4&sid=a&sid=b%2B HTTP/1.1\r\n\r\n");
    match Polling::handle(request) {
        // the last session counts
        PollingStep::Get(sid) => assert_eq!(*sid, "b+"),
        _ => panic!("not a get"),
    }
}

#[test]
fn polling_post_request() {
    let request = ask("POST /?sid=s HTTP/1.1\r\nContent-Length: 3\r\n\r\n4abc");
    match Polling::handle(request) {
        PollingStep::Post(sid, data) => {
            assert_eq!(*sid, "s");
            assert_eq!(data, b"4ab".to_vec());
        }
        _ => panic!("not a post"),
    }
    // without a session a post opens one
    let request = ask("POST / HTTP/1.1\r\nContent-Length: 0\r\n\r\n");
    assert!(matches!(request, Some(RequestType::PollingOpen)));
    // the last length counts
    let request = ask("POST /?sid=s HTTP/1.1\r\nContent-Length: 9\r\nContent-Length: 1\r\n\r\n4");
    assert!(matches!(request, Some(RequestType::PollingPost(_, _))));
}

#[test]
fn truncated_post_request() {
    let request = "POST /?sid=s HTTP/1.1\r\nContent-Length: 5\r\n\r\n4ab";
    assert!(matches!(
        parse_request_type(request.as_bytes(), ADDR),
        ReadRequest::Truncated
    ));
    let request = "POST / HTTP/1.1\r\nContent-Length: 1\r\n\r\n";
    assert!(matches!(
        parse_request_type(request.as_bytes(), ADDR),
        ReadRequest::Truncated
    ));
}

#[test]
fn websocket_request() {
    let request = ask("GET /?sid=s HTTP/1.1\r\nUpgrade: websocket\r\n\r\n");
    match route(request) {
        Route::Websocket(Some(sid)) => assert_eq!(*sid, "s"),
        _ => panic!("not an upgrade"),
    }
    match route(ask("GET / HTTP/1.1\r\nUpgrade: websocket\r\n\r\n")) {
        Route::Websocket(sid) => assert!(sid.is_none()),
        _ => panic!("not an upgrade"),
    }
    // a polling server refuses it
    let request = ask("GET / HTTP/1.1\r\nUpgrade: websocket\r\n\r\n");
    assert!(matches!(Polling::handle(request), PollingStep::Refuse));
    // header names are taken as they are written, and only a get upgrades
    assert!(matches!(
        route(ask("GET / HTTP/1.1\r\nupgrade: websocket\r\n\r\n")),
        Route::Polling
    ));
    assert!(matches!(
        route(ask("POST / HTTP/1.1\r\nUpgrade: websocket\r\n\r\n")),
        Route::Polling
    ));
}

#[test]
fn refused_requests() {
    // another method, another version, a bad length, not whole, too many headers, no URL
    assert!(ask("PUT / HTTP/1.1\r\n\r\n").is_none());
    assert!(ask("GET /?EIO=3 HTTP/1.1\r\n\r\n").is_none());
    assert!(ask("GET / HTTP/1.1\r\nContent-Length: x\r\n\r\n").is_none());
    assert!(ask("GET / HTTP/1.1\r\n").is_none());
    let many = "GET / HTTP/1.1\r\n".to_owned() + &"a: b\r\n".repeat(125) + "\r\n";
    assert!(ask(&many).is_none());
    assert!(matches!(Polling::handle(None), PollingStep::Refuse));
    assert!(matches!(route(None), Route::Polling));
    assert!(matches!(
        parse_request_type(b"GET / HTTP/1.1\r\n\r\n", "a b"),
        ReadRequest::Whole(None)
    ));
}

#[test]
fn an_upgrade_before_a_bad_length_wins() {
    let request = ask("GET / HTTP/1.1\r\nUpgrade: w\r\nContent-Length: x\r\n\r\n");
    assert!(matches!(request, Some(RequestType::WsUpgrade(None))));
    let request = ask("GET / HTTP/1.1\r\nContent-Length: x\r\nUpgrade: w\r\n\r\n");
    assert!(request.is_none());
}

#[test]
fn classified_parts() {
    let head = RequestHead {
        method: "POST".to_owned(),
        path: "/".to_owned(),
        headers: vec![("Content-Length".to_owned(), b"2".to_vec())],
        body_start: 1,
    };
    let query = Some(vec![("sid".to_owned(), "s".to_owned())]);
    match classify(&head, &query, b"xyz") {
        Some(RequestType::PollingPost(sid, data)) => {
            assert_eq!(sid, Arc::new("s".to_owned()));
            assert_eq!(data, b"yz".to_vec());
        }
        _ => panic!("not a post"),
    }
    assert!(classify(&head, &None, b"xyz").is_none());
}

#[test]
fn response_texts() {
    assert_eq!(
        http_response(200, Some("é".to_owned())),
        "HTTP/1.1 200 OK\r\ncontent-type: text/plain; charset=UTF-8\r\nconnection: Close\r\n\
         content-length: 2\r\n\r\né"
    );
    assert_eq!(
        http_response(400, None),
        "HTTP/1.1 400 Bad Request\r\ncontent-type: text/plain; charset=UTF-8\r\n\
         connection: Close\r\ncontent-length: 0\r\n"
    );
    assert_eq!(
        http_response(999, None),
        "HTTP/1.1 999 <unknown status code>\r\ncontent-type: text/plain; charset=UTF-8\r\n\
         connection: Close\r\ncontent-length: 0\r\n"
    );
}

#[test]
fn polling_responses() {
    assert_eq!(
        Polling::open_response(true, "{}"),
        http_response(200, Some("0{}".to_owned()))
    );
    assert_eq!(Polling::open_response(false, "{}"), http_response(500, None));
    assert_eq!(
        Polling::post_response(),
        http_response(200, Some("ok".to_owned()))
    );
    assert_eq!(Polling::refusal(), http_response(400, None));
    assert_eq!(Polling::get_response(None), http_response(200, None));
    assert_eq!(
        Polling::get_response(Some(VecDeque::new())),
        http_response(200, Some("6".to_owned()))
    );
    let mut waiting = VecDeque::new();
    waiting.push_back(b"4a".to_vec());
    assert_eq!(
        Polling::get_response(Some(waiting)),
        http_response(200, Some("4a".to_owned()))
    );
    assert_eq!(Polling::handshake_body("{}"), "0{}");
    assert_eq!(handshake_message("{}"), Message::Text("0{}".to_owned()));
}
