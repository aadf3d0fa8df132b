use idmon::growl::{gntp_send, Alert, Event};

fn alert(event: Event) -> Alert {
    Alert { event, name: "a.bin".into(), size: "3 MB".into() }
}

#[test]
fn alerts_have_titles_and_texts() {
    assert_eq!(alert(Event::Complete).title(), "\u{1f4e5} Done! Download Complete");
    assert_eq!(alert(Event::Started).title(), "\u{26a1} Running... Download Started");
    assert_eq!(alert(Event::Stopped).title(), "\u{1f6d1} Paused/Stopped Download Stopped");
    assert_eq!(alert(Event::Paused).title(), "\u{1f4e1} Update Download Paused");
    assert_eq!(alert(Event::Started).text(), "Asset: a.bin\nSize: 3 MB");
}

#[test]
fn a_request_registers_every_event() {
    let r = gntp_send("h", 23053, "pw", "Download Complete", "t", "m");
    assert_eq!(r.application, "NTFY-IDM Monitor");
    assert_eq!((r.host.as_str(), r.port), ("h", 23053));
    assert_eq!(r.password.as_deref(), Some("pw"));
    assert_eq!(r.icon, "idm.png");
    let names: Vec<&str> = r.events.iter().map(|e| e.name()).collect();
    assert_eq!(
        names,
        ["Download Started", "Download Complete", "Download Paused", "Download Stopped"]
    );
    assert_eq!(r.event, "Download Complete");
    assert_eq!((r.title.as_str(), r.text.as_str()), ("t", "m"));
}

#[test]
fn an_empty_password_is_none() {
    assert!(gntp_send("h", 1, "", "e", "t", "m").password.is_none());
}
