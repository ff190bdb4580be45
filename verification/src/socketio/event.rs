//! Events, by which callbacks are found.
use vstd::prelude::*;
use vstd::string::*;

use crate::text;

verus! {

/// One of the common events, or one that is defined by a string.
#[derive(Debug, PartialEq, Eq)]
pub enum Event {
    Message,
    Error,
    Connect,
    Close,
    Custom(String),
}

/// The value of an [`Event`].
pub enum EventView {
    Message,
    Error,
    Connect,
    Close,
    Custom(Seq<char>),
}

impl View for Event {
    type V = EventView;

    open spec fn view(&self) -> EventView {
        match self {
            Event::Message => EventView::Message,
            Event::Error => EventView::Error,
            Event::Connect => EventView::Connect,
            Event::Close => EventView::Close,
            Event::Custom(name) => EventView::Custom(name@),
        }
    }
}

impl Clone for Event {
    fn clone(&self) -> (event: Self)
        ensures
            event@ == self@,
    {
        match self {
            Event::Message => Event::Message,
            Event::Error => Event::Error,
            Event::Connect => Event::Connect,
            Event::Close => Event::Close,
            Event::Custom(name) => Event::Custom(name.clone()),
        }
    }
}

/// The event of a name.
pub open spec fn event_of(name: Seq<char>) -> EventView {
    if name == "message"@ {
        EventView::Message
    } else if name == "error"@ {
        EventView::Error
    } else if name == "connect"@ {
        EventView::Connect
    } else if name == "close"@ {
        EventView::Close
    } else {
        EventView::Custom(name)
    }
}

/// The name of an event.
pub open spec fn event_name(event: EventView) -> Seq<char> {
    match event {
        EventView::Message => "message"@,
        EventView::Error => "error"@,
        EventView::Connect => "connect"@,
        EventView::Close => "close"@,
        EventView::Custom(name) => name,
    }
}

/// Whether a custom event does not go by the name of a common one.
pub open spec fn is_proper(event: EventView) -> bool {
    event matches EventView::Custom(name) ==> event_of(name) is Custom
}

impl vstd::std_specs::convert::FromSpecImpl<String> for Event {
    open spec fn obeys_from_spec() -> bool {
        false
    }

    open spec fn from_spec(name: String) -> Event {
        arbitrary()
    }
}

impl From<String> for Event {
    fn from(name: String) -> (event: Event)
        ensures
            event@ == event_of(name@),
    {
        if text::same_text(name.as_str(), "message") {
            Event::Message
        } else if text::same_text(name.as_str(), "error") {
            Event::Error
        } else if text::same_text(name.as_str(), "connect") {
            Event::Connect
        } else if text::same_text(name.as_str(), "close") {
            Event::Close
        } else {
            Event::Custom(name)
        }
    }
}

impl vstd::std_specs::convert::FromSpecImpl<&str> for Event {
    open spec fn obeys_from_spec() -> bool {
        false
    }

    open spec fn from_spec(name: &str) -> Event {
        arbitrary()
    }
}

impl From<&str> for Event {
    fn from(name: &str) -> (event: Event)
        ensures
            event@ == event_of(name@),
    {
        Event::from(name.to_owned())
    }
}

impl vstd::std_specs::convert::FromSpecImpl<Event> for String {
    open spec fn obeys_from_spec() -> bool {
        false
    }

    open spec fn from_spec(event: Event) -> String {
        arbitrary()
    }
}

impl From<Event> for String {
    fn from(event: Event) -> (name: String)
        ensures
            name@ == event_name(event@),
    {
        match event {
            Event::Message => "message".to_owned(),
            Event::Error => "error".to_owned(),
            Event::Connect => "connect".to_owned(),
            Event::Close => "close".to_owned(),
            Event::Custom(name) => name,
        }
    }
}

/// Every name is the name of its event.
pub proof fn law_name_is_kept(name: Seq<char>)
    ensures
        event_name(event_of(name)) == name,
        is_proper(event_of(name)),
{
}

/// An event is found again by its name, unless it is a custom one that goes by a common name.
pub proof fn law_event_is_found_by_name(event: EventView)
    requires
        is_proper(event),
    ensures
        event_of(event_name(event)) == event,
{
    reveal_strlit("message");
    reveal_strlit("error");
    reveal_strlit("connect");
    reveal_strlit("close");
    assert("message"@[0] == 'm' && "error"@[0] == 'e' && "connect"@[0] == 'c' && "close"@[0] == 'c');
    assert("connect"@.len() != "close"@.len() && "connect"@[1] == 'o' && "close"@[1] == 'l');
}

/// The four common names stand for the four common events, and any other name for a custom event.
pub proof fn law_events_by_name(name: Seq<char>)
    ensures
        event_of("message"@) is Message,
        event_of("error"@) is Error,
        event_of("connect"@) is Connect,
        event_of("close"@) is Close,
        name != "message"@ && name != "error"@ && name != "connect"@ && name != "close"@ ==> event_of(
            name,
        ) == EventView::Custom(name),
        is_proper(EventView::Custom(name)) <==> name != "message"@ && name != "error"@ && name
            != "connect"@ && name != "close"@,
        is_proper(EventView::Message),
        is_proper(EventView::Error),
        is_proper(EventView::Connect),
        is_proper(EventView::Close),
{
    law_event_is_found_by_name(EventView::Message);
    law_event_is_found_by_name(EventView::Error);
    law_event_is_found_by_name(EventView::Connect);
    law_event_is_found_by_name(EventView::Close);
}

/// A custom event goes by its own name.
pub proof fn law_custom_event_keeps_name(name: Seq<char>)
    ensures
        event_name(EventView::Custom(name)) == name,
{
}

}
