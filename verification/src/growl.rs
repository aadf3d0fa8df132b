//! Alerts, and the Growl notification that announces one.

use vstd::prelude::*;

verus! {

/// What a notification can announce.
#[derive(Debug, Clone, Copy, PartialEq, Eq, Structural)]
pub enum Event {
    Started,
    Complete,
    Paused,
    Stopped,
}

/// The name under which an event is registered.
pub open spec fn event_name(e: Event) -> Seq<char> {
    match e {
        Event::Started => "Download Started"@,
        Event::Complete => "Download Complete"@,
        Event::Paused => "Download Paused"@,
        Event::Stopped => "Download Stopped"@,
    }
}

/// What stands before the event's name in a notification's title.
pub open spec fn event_decoration(e: Event) -> Seq<char> {
    match e {
        Event::Complete => "\u{1f4e5} Done!"@,
        Event::Started => "\u{26a1} Running..."@,
        Event::Stopped => "\u{1f6d1} Paused/Stopped"@,
        Event::Paused => "\u{1f4e1} Update"@,
    }
}

impl Event {
    /// The name under which the event is registered.
    pub fn name(self) -> (r: &'static str)
        ensures
            r@ == event_name(self),
    {
        match self {
            Event::Started => "Download Started",
            Event::Complete => "Download Complete",
            Event::Paused => "Download Paused",
            Event::Stopped => "Download Stopped",
        }
    }

    /// What stands before the event's name in a notification's title.
    pub fn decoration(self) -> (r: &'static str)
        ensures
            r@ == event_decoration(self),
    {
        match self {
            Event::Complete => "\u{1f4e5} Done!",
            Event::Started => "\u{26a1} Running...",
            Event::Stopped => "\u{1f6d1} Paused/Stopped",
            Event::Paused => "\u{1f4e1} Update",
        }
    }
}

/// A change of a download that is worth a notification.
#[derive(Debug)]
pub struct Alert {
    pub event: Event,
    pub name: String,
    pub size: String,
}

/// What an [`Alert`] stands for.
pub struct AlertModel {
    pub event: Event,
    pub name: Seq<char>,
    pub size: Seq<char>,
}

impl View for Alert {
    type V = AlertModel;

    open spec fn view(&self) -> AlertModel {
        AlertModel { event: self.event, name: self.name@, size: self.size@ }
    }
}

/// What an optional alert stands for.
pub open spec fn alert_of(alert: Option<Alert>) -> Option<AlertModel> {
    match alert {
        Some(a) => Some(a@),
        None => None,
    }
}

impl Alert {
    /// The title of the notification: the decoration and the event's name.
    pub fn title(&self) -> (r: String)
        ensures
            r@ == event_decoration(self@.event) + " "@ + event_name(self@.event),
    {
        let mut title = self.event.decoration().to_owned();
        title.append(" ");
        title.append(self.event.name());
        title
    }

    /// The text of the notification: what is downloaded, and how large it is.
    pub fn text(&self) -> (r: String)
        ensures
            r@ == "Asset: "@ + self@.name + "\nSize: "@ + self@.size,
    {
        let mut text = "Asset: ".to_owned();
        text.append(self.name.as_str());
        text.append("\nSize: ");
        text.append(self.size.as_str());
        text
    }
}

/// What goes to a Growl server: who registers, with which events and icon, and the notification.
#[derive(Debug)]
pub struct GntpRequest {
    pub application: String,
    pub host: String,
    pub port: u16,
    /// Nothing where the server asks for no password.
    pub password: Option<String>,
    /// The file that holds the icon of each event.
    pub icon: String,
    pub events: Vec<Event>,
    pub event: String,
    pub title: String,
    pub text: String,
}

/// The request that sends a notification to the server at `host` and `port`. An empty password
/// is none.
pub fn gntp_send(
    host: &str,
    port: u16,
    password: &str,
    event_type: &str,
    title: &str,
    message: &str,
) -> (r: GntpRequest)
    ensures
        r.application@ == "NTFY-IDM Monitor"@,
        r.host@ == host@,
        r.port == port,
        match r.password {
            Some(p) => password@.len() > 0 && p@ == password@,
            None => password@.len() == 0,
        },
        r.icon@ == "idm.png"@,
        r.events@ == seq![Event::Started, Event::Complete, Event::Paused, Event::Stopped],
        r.event@ == event_type@,
        r.title@ == title@,
        r.text@ == message@,
{
    let mut events: Vec<Event> = Vec::new();
    events.push(Event::Started);
    events.push(Event::Complete);
    events.push(Event::Paused);
    events.push(Event::Stopped);
    GntpRequest {
        application: "NTFY-IDM Monitor".to_owned(),
        host: host.to_owned(),
        port,
        password: if password.is_empty() {
            None
        } else {
            Some(password.to_owned())
        },
        icon: "idm.png".to_owned(),
        events,
        event: event_type.to_owned(),
        title: title.to_owned(),
        text: message.to_owned(),
    }
}

/// The events that an alert can announce are among those that a request registers.
pub proof fn every_event_is_registered(e: Event)
    ensures
        seq![Event::Started, Event::Complete, Event::Paused, Event::Stopped].contains(e),
{
    let all = seq![Event::Started, Event::Complete, Event::Paused, Event::Stopped];
    assert(all[0] == Event::Started && all[1] == Event::Complete && all[2] == Event::Paused
        && all[3] == Event::Stopped);
}

/// Different events have different names and different decorations.
pub proof fn events_can_be_told_apart(a: Event, b: Event)
    requires
        a != b,
    ensures
        event_name(a) != event_name(b),
        event_decoration(a) != event_decoration(b),
{
    reveal_strlit("Download Started");
    reveal_strlit("Download Complete");
    reveal_strlit("Download Paused");
    reveal_strlit("Download Stopped");
    reveal_strlit("\u{1f4e5} Done!");
    reveal_strlit("\u{26a1} Running...");
    reveal_strlit("\u{1f6d1} Paused/Stopped");
    reveal_strlit("\u{1f4e1} Update");
    assert(event_name(a)[11] != event_name(b)[11] || event_name(a)[9] != event_name(b)[9]
        || event_name(a).len() != event_name(b).len() || event_name(a)[10] != event_name(b)[10]);
    assert(event_decoration(a)[0] != event_decoration(b)[0]);
}

} // verus!
