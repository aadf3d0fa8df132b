use idmon::json::{Json, Member};
use idmon::message::{
    has_manager_title, innermost_message, layer_in_text, read_line, read_message, read_report,
    read_titled_name, Message,
};

const TITLE: &str = "\u{1f4f1} idm.internet.download.manager.plus";

fn message(title: Option<&str>, text: Option<&str>) -> Message {
    Message {
        time: None,
        title: title.map(|s| s.to_string()),
        message: text.map(|s| s.to_string()),
    }
}

fn object(members: Vec<(&str, Json)>) -> Json {
    Json::Object(
        members
            .into_iter()
            .map(|(key, value)| Member { key: key.to_string(), value })
            .collect(),
    )
}

fn quoted(s: &str) -> String {
    serde_json::Value::String(s.to_string()).to_string()
}

#[test]
fn a_titled_message_is_read() {
    let body = "a.bin\n5% | 3 MB | 1MB/s | 00:01/00:10";
    let line = format!("  {{\"time\":1,\"title\":{},\"message\":{}}} \n", quoted(TITLE), quoted(body));
    let m = read_line(&line).unwrap();
    assert_eq!(m.time, Some(1));
    assert_eq!(m.title.as_deref(), Some(TITLE));
    assert_eq!(m.message.as_deref(), Some(body));
    let r = read_report(&m).unwrap();
    assert_eq!(r.name, "a.bin");
    assert_eq!(r.percent, "5%");
    assert_eq!(r.size, "3 MB");
    assert_eq!(r.speed, "1MB/s");
    assert_eq!(r.eta, "00:01");
    assert_eq!(r.total_duration, "00:10");
}

#[test]
fn blank_and_broken_lines_carry_nothing() {
    assert!(read_line("").is_none());
    assert!(read_line(" \t\n").is_none());
    assert!(read_line("not json").is_none());
    assert!(read_line("{\"a\":").is_none());
}

#[test]
fn a_line_without_an_object_carries_an_empty_message() {
    for line in ["7", "null", "true", "[{\"title\":\"t\"}]", "\"x\""] {
        let m = read_line(line).unwrap();
        assert!(m.time.is_none() && m.title.is_none() && m.message.is_none());
    }
}

#[test]
fn layers_of_objects_are_unwrapped() {
    let m = read_line("{\"title\":\"outer\",\"message\":{\"message\":{\"title\":\"inner\",\"time\":9,\"message\":\"x\"}}}").unwrap();
    assert_eq!(m.title.as_deref(), Some("inner"));
    assert_eq!(m.time, Some(9));
    assert_eq!(m.message.as_deref(), Some("x"));
}

#[test]
fn layers_of_text_are_unwrapped() {
    let inner = "{\"title\":\"inner\",\"message\":\"x\"}";
    let middle = format!("{{\"title\":\"middle\",\"message\":{}}}", quoted(inner));
    let outer = format!("{{\"title\":\"outer\",\"message\":{}}}", quoted(&middle));
    let m = read_line(&outer).unwrap();
    assert_eq!(m.title.as_deref(), Some("inner"));
    assert_eq!(m.message.as_deref(), Some("x"));
}

#[test]
fn a_text_that_is_no_container_is_no_layer() {
    for text in ["7", "null", "\"x\"", "plain", ""] {
        let line = format!("{{\"title\":\"t\",\"message\":{}}}", quoted(text));
        let m = read_line(&line).unwrap();
        assert_eq!(m.title.as_deref(), Some("t"));
        assert_eq!(m.message.as_deref(), Some(text));
    }
}

#[test]
fn an_array_in_a_text_is_a_layer() {
    let m = read_line("{\"title\":\"t\",\"message\":\"[1]\"}").unwrap();
    assert!(m.title.is_none() && m.message.is_none());
}

#[test]
fn an_array_as_message_is_no_layer() {
    let m = read_line("{\"title\":\"t\",\"message\":[1]}").unwrap();
    assert_eq!(m.title.as_deref(), Some("t"));
    assert!(m.message.is_none());
}

#[test]
fn the_last_of_equal_keys_counts() {
    let m = read_line("{\"title\":\"a\",\"title\":\"b\"}").unwrap();
    assert_eq!(m.title.as_deref(), Some("b"));
}

#[test]
fn only_whole_numbers_are_times() {
    for (text, time) in [
        ("-5", Some(-5)),
        ("9223372036854775807", Some(i64::MAX)),
        ("9223372036854775808", None),
        ("1.5", None),
        ("1e3", None),
        ("\"1\"", None),
    ] {
        let m = read_line(&format!("{{\"time\":{text}}}")).unwrap();
        assert_eq!(m.time, time, "{text}");
    }
}

#[test]
fn values_that_are_built_read_like_those_that_are_parsed() {
    let v = object(vec![
        ("message", object(vec![("title", Json::Text("t".into())), ("time", Json::Number(Some(3)))])),
        ("title", Json::Text("outer".into())),
    ]);
    assert_eq!(read_message(&v).title.as_deref(), Some("outer"));
    let m = innermost_message(&v);
    assert_eq!(m.title.as_deref(), Some("t"));
    assert_eq!(m.time, Some(3));
    assert!(m.message.is_none());
    assert!(layer_in_text(Some(Json::Array(vec![]))).is_some());
    assert!(layer_in_text(Some(object(vec![]))).is_some());
    assert!(layer_in_text(Some(Json::Null)).is_none());
    assert!(layer_in_text(Some(Json::Bool(true))).is_none());
    assert!(layer_in_text(None).is_none());
    assert!(v.get("title").is_some());
    assert!(v.get("titl").is_none());
    assert!(Json::Array(vec![]).get("title").is_none());
}

#[test]
fn titles_of_others_are_refused() {
    assert!(read_report(&message(Some("idm.internet"), Some("a\n1%"))).is_none());
    assert!(read_report(&message(Some("x idm.internet."), Some("a\n1%"))).is_none());
    assert!(read_report(&message(Some(""), Some("idm.internet.x"))).is_none());
    assert!(has_manager_title(&message(Some(" \u{1f4f1}idm.\u{1f4f1}internet. "), None)));
    assert!(!has_manager_title(&message(None, None)));
}

#[test]
fn a_titled_message_without_lines_has_defaults() {
    let m = message(Some("idm.internet."), None);
    assert_eq!(read_titled_name(&m), "Unknown Asset");
    let r = read_report(&m).unwrap();
    assert_eq!(r.name, "Unknown Asset");
    assert_eq!(r.percent, "0%");
    assert_eq!(r.size, "Unknown Size");
    assert_eq!(r.speed, "0KB/s");
    assert_eq!(r.eta, "--");
    assert_eq!(r.total_duration, "--");
}

#[test]
fn missing_metrics_have_defaults() {
    let r = read_report(&message(Some("idm.internet."), Some("\n n \n\n 7% | 2 GB \n more"))).unwrap();
    assert_eq!(r.name, "n");
    assert_eq!(r.percent, "7%");
    assert_eq!(r.size, "2 GB");
    assert_eq!(r.speed, "0KB/s");
    assert_eq!(r.eta, "--");
    assert_eq!(r.total_duration, "--");
}

#[test]
fn times_are_cut_at_the_first_slash() {
    let r = read_report(&message(Some("idm.internet."), Some("n\n||| 1s / 2s/3s "))).unwrap();
    assert_eq!(r.percent, "");
    assert_eq!(r.eta, "1s");
    assert_eq!(r.total_duration, "2s/3s");
    let r = read_report(&message(Some("idm.internet."), Some("n\na|b|c| 1s |x"))).unwrap();
    assert_eq!(r.eta, "1s");
    assert_eq!(r.total_duration, "--");
}

#[test]
fn an_untitled_message_reports_a_name() {
    let r = read_report(&message(None, Some("idm.internet.thing"))).unwrap();
    assert_eq!(r.name, "idm.internet.thing");
    assert_eq!(r.percent, "0%");
    assert_eq!(r.size, "Unknown");
    assert_eq!(r.speed, "0KB/s");
    assert_eq!(r.eta, "--");
    assert_eq!(r.total_duration, "--");
    assert!(read_report(&message(None, Some(" idm.internet.thing"))).is_none());
    assert!(read_report(&message(None, None)).is_none());
}
