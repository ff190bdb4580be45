//! The steps of a server that serves HTTP requests.
use std::collections::VecDeque;

use vstd::prelude::*;
use vstd::string::*;

use crate::engineio::http;
use crate::engineio::http::{RequestType, RequestTypeView};
use crate::engineio::packet;
use crate::engineio::packet::{PacketType, Sid};
use crate::engineio::payload;
use crate::engineio::response;
use crate::engineio::transports;
use crate::engineio::transports::{Message, MessageView};
use crate::text;

verus! {

/// Which way a connection goes.
#[derive(Debug)]
pub enum Route {
    /// It becomes a websocket, in place of the polling session that it names.
    Websocket(Option<Sid>),
    /// It is served as a polling request.
    Polling,
}

/// Chooses the way of a connection by its first request.
pub fn route(request: Option<RequestType>) -> (route: Route)
    ensures
        match http::request_view(request) {
            Some(RequestTypeView::WsUpgrade(sid)) => route matches Route::Websocket(s)
                && http::sid_view(s) == sid,
            _ => route is Polling,
        },
{
    match request {
        Some(RequestType::WsUpgrade(sid)) => Route::Websocket(sid),
        _ => Route::Polling,
    }
}

/// What a server does about a polling request.
#[derive(Debug)]
pub enum PollingStep {
    /// Open a session, and tell of it.
    Open,
    /// Take what the client of a session posts.
    Post(Sid, Vec<u8>),
    /// Hand out what waits for the client of a session.
    Get(Sid),
    /// Refuse the request.
    Refuse,
}

/// The text for a polling client: what waits for it, or that nothing does; none where its session
/// does not poll.
pub open spec fn polling_text(waiting: Option<Seq<Seq<u8>>>) -> Option<Seq<char>> {
    match waiting {
        None => None,
        Some(items) => match payload::polling_payload(items) {
            Some(text) => Some(text),
            None => Some(packet::type_text(PacketType::Noop)),
        },
    }
}

/// The values of the items that wait for a polling client.
pub open spec fn waiting_view(waiting: Option<VecDeque<Vec<u8>>>) -> Option<Seq<Seq<u8>>> {
    match waiting {
        Some(items) => Some(payload::byte_views(items@)),
        None => None,
    }
}

/// The service of polling requests.
pub struct Polling {}

impl Polling {
    /// Chooses what to do about a request.
    pub fn handle(request: Option<RequestType>) -> (step: PollingStep)
        ensures
            match http::request_view(request) {
                Some(RequestTypeView::PollingOpen) => step is Open,
                Some(RequestTypeView::PollingPost(sid, data)) => step matches PollingStep::Post(s, d)
                    && s@ == sid && d@ == data,
                Some(RequestTypeView::PollingGet(sid)) => step matches PollingStep::Get(s) && s@ == sid,
                _ => step is Refuse,
            },
    {
        match request {
            Some(RequestType::PollingOpen) => PollingStep::Open,
            Some(RequestType::PollingPost(sid, data)) => PollingStep::Post(sid, data),
            Some(RequestType::PollingGet(sid)) => PollingStep::Get(sid),
            _ => PollingStep::Refuse,
        }
    }

    /// The body that tells of a session: an open packet with the handshake, which is given as
    /// JSON.
    pub fn handshake_body(handshake: &str) -> (body: String)
        ensures
            body@ == packet::type_text(PacketType::Open) + handshake@,
    {
        let mut body = String::from(PacketType::Open);
        body.append(handshake);
        body
    }

    /// The response to a request that opens a session, given whether the session could be opened,
    /// and the handshake as JSON.
    pub fn open_response(stored: bool, handshake: &str) -> (response: String)
        ensures
            response@ == if stored {
                response::response_text(
                    200,
                    Some(packet::type_text(PacketType::Open) + handshake@),
                )
            } else {
                response::response_text(500, None)
            },
    {
        if stored {
            response::http_response(200, Some(Self::handshake_body(handshake)))
        } else {
            response::http_response(500, None)
        }
    }

    /// The response to a client that posted something.
    pub fn post_response() -> (response: String)
        ensures
            response@ == response::response_text(200, Some("ok"@)),
    {
        response::http_response(200, Some("ok".to_owned()))
    }

    /// The text for a polling client.
    pub fn polling_get(waiting: Option<VecDeque<Vec<u8>>>) -> (text: Option<String>)
        ensures
            text::text_view(text) == polling_text(waiting_view(waiting)),
            waiting_view(waiting) matches Some(items) ==> (!payload::has_polling_body(items)
                ==> text::text_view(text) == Some(packet::type_text(PacketType::Noop))),
    {
        match waiting {
            None => None,
            Some(items) => match payload::build_polling_payload(items) {
                Some(payload) => Some(payload),
                None => Some(String::from(PacketType::Noop)),
            },
        }
    }

    /// The response to a client that asked for what waits for it.
    pub fn get_response(waiting: Option<VecDeque<Vec<u8>>>) -> (response: String)
        ensures
            response@ == response::response_text(200, polling_text(waiting_view(waiting))),
    {
        response::http_response(200, Self::polling_get(waiting))
    }

    /// The response to a request that is refused.
    pub fn refusal() -> (response: String)
        ensures
            response@ == response::response_text(400, None),
    {
        response::http_response(400, None)
    }
}

/// The message that tells of a session over a websocket, given the handshake as JSON.
pub fn handshake_message(handshake: &str) -> (message: Message)
    ensures
        message@ == MessageView::Text(transports::packet_text(PacketType::Open, handshake@)),
{
    transports::packet_message(PacketType::Open, handshake)
}

/// A client whose session polls gets what waits for it as one body, and else a lone `6`; one whose
/// session does not poll gets nothing.
pub proof fn law_polling_client_gets_a_text(items: Seq<Seq<u8>>)
    ensures
        polling_text(None) is None,
        payload::polling_payload(items) is Some ==> polling_text(Some(items))
            == payload::polling_payload(items),
        payload::polling_payload(items) is None ==> polling_text(Some(items)) == Some(seq!['6']),
{
    assert(packet::type_text(PacketType::Noop) =~= seq!['6']);
}

}
