//! How a client is set up.
use std::sync::Arc;

use vstd::prelude::*;
use vstd::string::*;
use vstd::utf8::*;

use crate::address;
use crate::address::{Address, AddressView, PartsView};
use crate::engineio::client as engine;
use crate::engineio::client::{ClientBuilder as EngineClientBuilder, ClientBuilderView as EngineView};
use crate::engineio::header::HeaderMap;
use crate::socketio::error::Error;
use crate::socketio::event::{Event, EventView};
use crate::socketio::socket::{Socket, SocketView};
use crate::socketio::tables;
use crate::socketio::tables::Callbacks;

verus! {

/// Flavor of Engine.IO transport.
#[derive(Copy, Clone, Debug, Eq, PartialEq, Structural)]
pub enum TransportType {
    /// Handshakes with polling, upgrades if possible
    Any,
    /// Handshakes with websocket. Does not use polling.
    Websocket,
    /// Handshakes with polling, errors if upgrade fails
    WebsocketUpgrade,
    /// Handshakes with polling
    Polling,
}

/// A builder for a `socket.io` client. If no namespace is specified, the default namespace `/` is
/// taken.
#[derive(Debug)]
pub struct ClientBuilder {
    address: String,
    on: Callbacks,
    namespace: String,
    opening_headers: Option<HeaderMap>,
    transport_type: TransportType,
    reconnect: bool,
    // None reconnect attempts represent infinity.
    max_reconnect_attempts: Option<usize>,
    reconnect_delay_min: u64,
    reconnect_delay_max: u64,
}

/// The value of a [`ClientBuilder`].
pub struct ClientBuilderView {
    pub address: Seq<char>,
    pub on: Map<(u8, Seq<char>), u64>,
    pub namespace: Seq<char>,
    pub opening_headers: Option<Map<Seq<char>, Seq<char>>>,
    pub transport_type: TransportType,
    pub reconnect: bool,
    pub max_reconnect_attempts: Option<usize>,
    pub reconnect_delay_min: u64,
    pub reconnect_delay_max: u64,
}

impl View for ClientBuilder {
    type V = ClientBuilderView;

    closed spec fn view(&self) -> ClientBuilderView {
        ClientBuilderView {
            address: self.address@,
            on: tables::callbacks_in(self.on),
            namespace: self.namespace@,
            opening_headers: engine::header_map_view(self.opening_headers),
            transport_type: self.transport_type,
            reconnect: self.reconnect,
            max_reconnect_attempts: self.max_reconnect_attempts,
            reconnect_delay_min: self.reconnect_delay_min,
            reconnect_delay_max: self.reconnect_delay_max,
        }
    }
}

/// A namespace with a leading slash.
pub open spec fn with_slash(namespace: Seq<char>) -> Seq<char> {
    if namespace.len() > 0 && namespace[0] == '/' {
        namespace
    } else {
        "/"@ + namespace
    }
}

/// Headers with one more, in place of one of the same name.
pub open spec fn with_header(
    headers: Option<Map<Seq<char>, Seq<char>>>,
    name: Seq<char>,
    value: Seq<char>,
) -> Map<Seq<char>, Seq<char>> {
    match headers {
        Some(headers) => headers.insert(name, value),
        None => Map::empty().insert(name, value),
    }
}

/// The URL of a `socket.io` server, given its address.
pub open spec fn server_url(address: Seq<char>) -> AddressView {
    address::with_default_path(address::with_default_port(address), "/socket.io/"@)
}

/// Whether an address is a URL, and leaves room for port, path and version.
pub open spec fn is_server_address(address: Seq<char>) -> bool {
    let url = address::unchanged(address);
    let with_port = address::with_default_port(address);
    &&& address::is_url(address)
    &&& address::is_web(address::parts_of(url).scheme) ==> address::has_room(url, 0)
    &&& address::parts_of(url).path == seq!['/'] ==> address::has_room(
        with_port,
        address::byte_len("/socket.io/"@),
    )
    &&& engine::has_client_room(server_url(address))
}

/// Whether a URL leads where an address does: it has the scheme of the address, its query with the
/// version at the end, its path or `/socket.io/` in place of the root, and its port, which is 80
/// where an address of the web names none.
pub open spec fn leads_to(url: PartsView, address: Seq<char>) -> bool {
    let named = address::parts_of(address::unchanged(address));
    &&& url.scheme == named.scheme
    &&& url.query == named.query.push(("EIO"@, "4"@))
    &&& url.path == address::default_path(named.path, "/socket.io/"@)
    &&& if address::is_web(named.scheme) {
        address::web_port(url) == address::port_or_default(address)
    } else {
        url.port == named.port
    }
}

/// When and how often to connect again after a connection was lost.
#[derive(Copy, Clone, Debug, PartialEq, Eq, Structural)]
pub struct ReconnectPolicy {
    pub reconnect: bool,
    /// None means infinity.
    pub max_attempts: Option<usize>,
    pub delay_min: u64,
    pub delay_max: u64,
}

/// What is needed to connect: the `engine.io` client, the transport that it is to use, and the
/// connection that is opened over it.
#[derive(Debug)]
pub struct Connection {
    pub engine: EngineClientBuilder,
    pub transport_type: TransportType,
    pub socket: Socket,
}

impl ClientBuilder {
    /// Create as client builder from a URL. URLs must be in the form
    /// `[ws or wss or http or https]://[domain]:[port]/[path]`. The path of the URL is optional
    /// and if no port is given, port 80 will be used.
    pub fn new(address: String) -> (builder: Self)
        ensures
            builder@ == (ClientBuilderView {
                address: address@,
                on: builder@.on,
                namespace: "/"@,
                opening_headers: None,
                transport_type: TransportType::Any,
                reconnect: true,
                max_reconnect_attempts: None,
                reconnect_delay_min: 1000,
                reconnect_delay_max: 5000,
            }),
            builder@.on == Map::<(u8, Seq<char>), u64>::empty(),
    {
        let on = tables::new_callbacks();
        assert(tables::callbacks_in(on) =~= Map::<(u8, Seq<char>), u64>::empty());
        ClientBuilder {
            address,
            on,
            namespace: "/".to_owned(),
            opening_headers: None,
            transport_type: TransportType::Any,
            reconnect: true,
            // None means infinity
            max_reconnect_attempts: None,
            reconnect_delay_min: 1000,
            reconnect_delay_max: 5000,
        }
    }

    /// Sets the target namespace of the client. The namespace should start with a leading `/`.
    /// Valid examples are e.g. `/admin`, `/foo`. If the String provided doesn't start with a
    /// leading `/`, it is added manually.
    pub fn namespace(self, namespace: String) -> (builder: Self)
        ensures
            builder@ == (ClientBuilderView { namespace: with_slash(namespace@), ..self@ }),
    {
        let starts_with_slash = !namespace.as_str().is_empty() && namespace.as_str().get_char(0) == '/';
        let nsp = if starts_with_slash {
            namespace
        } else {
            let mut nsp = "/".to_owned();
            nsp.append(namespace.as_str());
            nsp
        };
        ClientBuilder { namespace: nsp, ..self }
    }

    /// Registers a new callback for a certain event. The event could either be one of the common
    /// events like `message`, `error`, `connect`, `close` or a custom event defined by a string,
    /// e.g. `onPayment` or `foo`.
    pub fn on(self, event: &Event, callback: u64) -> (builder: Self)
        ensures
            builder@ == (ClientBuilderView {
                on: self@.on.insert(tables::event_key(event@), callback),
                ..self@
            }),
    {
        let mut builder = self;
        tables::insert_callback(&mut builder.on, tables::key_of(event), callback);
        builder
    }

    /// Sets custom http headers for the opening request. The headers will be passed to the
    /// underlying transport type (either websockets or polling) and then get passed with every
    /// request thats made via the transport layer.
    pub fn opening_header(self, key: String, val: String) -> (builder: Self)
        ensures
            builder@ == (ClientBuilderView {
                opening_headers: Some(with_header(self@.opening_headers, key@, val@)),
                ..self@
            }),
            builder@.opening_headers matches Some(after) && after.dom().contains(key@) && after[key@]
                == val@,
            self@.opening_headers matches Some(before) ==> (builder@.opening_headers matches Some(after)
                && (forall|other: Seq<char>|
                #![trigger after.dom().contains(other)]
                #![trigger before.dom().contains(other)]
                other != key@ ==> {
                    &&& after.dom().contains(other) <==> before.dom().contains(other)
                    &&& before.dom().contains(other) ==> after[other] == before[other]
                })),
    {
        let ClientBuilder {
            address,
            on,
            namespace,
            opening_headers,
            transport_type,
            reconnect,
            max_reconnect_attempts,
            reconnect_delay_min,
            reconnect_delay_max,
        } = self;
        let mut map = match opening_headers {
            Some(map) => map,
            None => HeaderMap::new(),
        };
        map.insert(key, val);
        ClientBuilder {
            address,
            on,
            namespace,
            opening_headers: Some(map),
            transport_type,
            reconnect,
            max_reconnect_attempts,
            reconnect_delay_min,
            reconnect_delay_max,
        }
    }

    /// Specifies which EngineIO [`TransportType`] to use.
    pub fn transport_type(self, transport_type: TransportType) -> (builder: Self)
        ensures
            builder@ == (ClientBuilderView { transport_type, ..self@ }),
    {
        ClientBuilder { transport_type, ..self }
    }

    /// Sets whether to connect again after a connection was lost.
    pub fn reconnect(self, reconnect: bool) -> (builder: Self)
        ensures
            builder@ == (ClientBuilderView { reconnect, ..self@ }),
    {
        ClientBuilder { reconnect, ..self }
    }

    /// Sets the shortest and the longest delay before connecting again.
    pub fn reconnect_delay(self, min: u64, max: u64) -> (builder: Self)
        ensures
            builder@ == (ClientBuilderView {
                reconnect_delay_min: min,
                reconnect_delay_max: max,
                ..self@
            }),
    {
        ClientBuilder { reconnect_delay_min: min, reconnect_delay_max: max, ..self }
    }

    /// Sets how often to try to connect again.
    pub fn max_reconnect_attempts(self, reconnect_attempts: usize) -> (builder: Self)
        ensures
            builder@ == (ClientBuilderView {
                max_reconnect_attempts: Some(reconnect_attempts),
                ..self@
            }),
    {
        ClientBuilder { max_reconnect_attempts: Some(reconnect_attempts), ..self }
    }

    /// When and how often to connect again.
    pub fn reconnect_policy(&self) -> (policy: ReconnectPolicy)
        ensures
            policy == (ReconnectPolicy {
                reconnect: self@.reconnect,
                max_attempts: self@.max_reconnect_attempts,
                delay_min: self@.reconnect_delay_min,
                delay_max: self@.reconnect_delay_max,
            }),
    {
        ReconnectPolicy {
            reconnect: self.reconnect,
            max_attempts: self.max_reconnect_attempts,
            delay_min: self.reconnect_delay_min,
            delay_max: self.reconnect_delay_max,
        }
    }

    /// Prepares what is needed to connect.
    pub fn connect_socket(self) -> (connection: Result<Connection, Error>)
        ensures
            connection is Ok <==> is_server_address(self@.address),
            connection matches Err(e) ==> e == Error::InvalidUrl(),
            address::is_url(self@.address) && address::is_short(address::unchanged(self@.address))
                ==> connection is Ok,
            connection matches Ok(c) ==> {
                &&& c.engine@ == (EngineView {
                    url: engine::client_url(server_url(self@.address)),
                    should_pong: true,
                    headers: self@.opening_headers,
                    handshake: None,
                    channel_size: 100,
                })
                &&& leads_to(address::parts_of(c.engine@.url), self@.address)
                &&& c.transport_type == self@.transport_type
                &&& c.socket@ == (SocketView {
                    nsp: self@.namespace,
                    on: self@.on,
                    acks: Seq::empty(),
                    connected: true,
                    next_ack_id: 0,
                })
            },
    {
        proof {
            reveal_strlit("/socket.io/");
            assert("/socket.io/"@.len() == 11 && seq!['/'].len() == 1);
            assert(address::is_plain_path("/socket.io/"@));
            is_ascii_chars_encode_utf8("/socket.io/"@);
        }
        // Parse url here rather than in new to keep new returning Self.
        let url = match Address::parse_server(self.address.as_str()) {
            Some(url) => url,
            None => {
                return Err(Error::InvalidUrl());
            },
        };
        let url = match url.set_default_path("/socket.io/") {
            Some(url) => url,
            None => {
                return Err(Error::InvalidUrl());
            },
        };
        let engine = match EngineClientBuilder::new(url) {
            Ok(engine) => engine,
            Err(_) => {
                return Err(Error::InvalidUrl());
            },
        };
        let engine = match self.opening_headers {
            Some(headers) => engine.headers(headers),
            None => engine,
        };
        let socket = Socket::new(self.namespace, Arc::new(self.on));
        Ok(Connection { engine, transport_type: self.transport_type, socket })
    }
}

/// A namespace has a leading slash, and giving it one twice is giving it one.
pub proof fn law_namespace_has_slash(namespace: Seq<char>)
    ensures
        with_slash(namespace).len() > 0,
        with_slash(namespace)[0] == '/',
        with_slash(with_slash(namespace)) == with_slash(namespace),
{
    reveal_strlit("/");
}

/// A connection to an address of the web that names no port is made to port 80, and one to an
/// address without a path is made to the path `/socket.io/`.
pub proof fn law_default_port_and_path(url: PartsView, address: Seq<char>)
    requires
        leads_to(url, address),
    ensures
        ({
            let named = address::parts_of(address::unchanged(address));
            let as_http = address::parts_of(address::unchanged(address::as_http(address)));
            &&& address::is_web(named.scheme) && address::is_url(address::as_http(address))
                && as_http.port is None ==> address::web_port(url) == 80
            &&& named.path == "/"@ ==> url.path == "/socket.io/"@
        }),
{
    reveal_strlit("/");
    assert("/"@ =~= seq!['/']);
}

/// The callback that was registered last for an event is the one that is called, and those of
/// other events stay as they are.
pub proof fn law_last_callback_counts(
    on: Map<(u8, Seq<char>), u64>,
    event: EventView,
    callback: u64,
    other: EventView,
)
    ensures
        on.insert(tables::event_key(event), callback)[tables::event_key(event)] == callback,
        other != event ==> {
            let after = on.insert(tables::event_key(event), callback);
            &&& after.dom().contains(tables::event_key(other)) == on.dom().contains(
                tables::event_key(other),
            )
            &&& after[tables::event_key(other)] == on[tables::event_key(other)]
        },
{
    if other != event {
        tables::law_event_keys_differ(event, other);
    }
}

/// A header that is given stands under its name from then on, and every other one is as it was: it is
/// there if and only if it was, with the same value.
pub proof fn law_given_header(
    headers: Option<Map<Seq<char>, Seq<char>>>,
    name: Seq<char>,
    value: Seq<char>,
    other: Seq<char>,
)
    ensures
        ({
            let after = with_header(headers, name, value);
            &&& after.dom().contains(name)
            &&& after[name] == value
            &&& headers is None && other != name ==> !after.dom().contains(other)
            &&& headers matches Some(before) ==> (other != name ==> (after.dom().contains(other)
                <==> before.dom().contains(other)) && (before.dom().contains(other) ==> after[other]
                == before[other]))
        }),
{
}

/// Headers that are given one after the other are all there, and the last of a name counts.
pub proof fn law_given_headers_add_up(
    headers: Option<Map<Seq<char>, Seq<char>>>,
    first: (Seq<char>, Seq<char>),
    second: (Seq<char>, Seq<char>),
)
    ensures
        ({
            let after = with_header(
                Some(with_header(headers, first.0, first.1)),
                second.0,
                second.1,
            );
            &&& after.dom().contains(first.0)
            &&& after.dom().contains(second.0)
            &&& after[second.0] == second.1
            &&& first.0 != second.0 ==> after[first.0] == first.1
            &&& headers matches Some(before) ==> before.dom().subset_of(after.dom())
        }),
{
}

/// A namespace that has a leading slash stays as it is, and any other is what follows the slash.
pub proof fn law_namespace_is_kept(namespace: Seq<char>)
    ensures
        namespace.len() > 0 && namespace[0] == '/' ==> with_slash(namespace) == namespace,
        namespace.len() == 0 || namespace[0] != '/' ==> with_slash(namespace).skip(1) == namespace,
{
    reveal_strlit("/");
    if namespace.len() == 0 || namespace[0] != '/' {
        assert(with_slash(namespace).skip(1) =~= namespace);
    }
}

/// Where a connection is made to, given what an address names: the same scheme; the same query with
/// the version behind it; the same path, unless it is the root; and without the web the same port.
pub proof fn law_connection_leads_to(url: PartsView, address: Seq<char>)
    requires
        leads_to(url, address),
    ensures
        ({
            let named = address::parts_of(address::unchanged(address));
            &&& url.scheme == named.scheme
            &&& url.query.len() == named.query.len() + 1
            &&& url.query.last() == ("EIO"@, "4"@)
            &&& url.query.drop_last() == named.query
            &&& named.path != "/"@ ==> url.path == named.path
            &&& named.scheme != "http"@ && named.scheme != "https"@ && named.scheme != "ws"@
                && named.scheme != "wss"@ ==> url.port == named.port
        }),
{
    reveal_strlit("/");
    assert("/"@ =~= seq!['/']);
    assert(url.query.drop_last() =~= address::parts_of(address::unchanged(address)).query);
}

}
