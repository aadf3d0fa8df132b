use idmon::feed::{subscription_url, FeedAction, FeedEvent, FeedReader};

#[test]
fn streams_end_in_json() {
    assert_eq!(subscription_url("http://h/t"), "http://h/t/json");
    assert_eq!(subscription_url("http://h/t//"), "http://h/t/json");
    assert_eq!(subscription_url("http://h/t/json"), "http://h/t/json");
    assert_eq!(subscription_url("http://h/t/json/"), "http://h/t/json/json");
    assert_eq!(subscription_url(""), "/json");
}

#[test]
fn a_stream_is_its_own_stream() {
    for url in ["http://h/t", "http://h/t/json", "//"] {
        let once = subscription_url(url);
        assert_eq!(subscription_url(&once), once);
    }
}

#[test]
fn lines_come_when_they_end() {
    let mut reader = FeedReader::new();
    assert!(reader.push_text("ab").is_empty());
    assert_eq!(reader.push_text("c \n\n  \r\n d\ne"), ["abc", "d"]);
    assert!(reader.push_text("").is_empty());
    assert_eq!(reader.push_text("\n"), ["e"]);
}

#[test]
fn the_cut_of_the_stream_does_not_matter() {
    let text = "one\r\n two \n\nthree\nfo";
    let whole = FeedReader::new().push_text(text);
    assert_eq!(whole, ["one", "two", "three"]);
    for cut in 0..=text.len() {
        let mut reader = FeedReader::new();
        let mut lines = reader.push_text(&text[..cut]);
        lines.extend(reader.push_text(&text[cut..]));
        assert_eq!(lines, whole);
        assert_eq!(reader.push_text("ur\n"), ["four"]);
    }
}

#[test]
fn events_lead_to_actions() {
    let mut reader = FeedReader::new();
    let (lines, action) = reader.step(FeedEvent::Refused);
    assert!(lines.is_empty());
    assert_eq!(action, FeedAction::Pause(7));
    let (lines, action) = reader.step(FeedEvent::Opened);
    assert!(lines.is_empty());
    assert_eq!(action, FeedAction::Read);
    let (lines, action) = reader.step(FeedEvent::Chunk(b"{\"a\":1}\n{\"b".to_vec()));
    assert_eq!(lines, ["{\"a\":1}"]);
    assert_eq!(action, FeedAction::Read);
    let (lines, action) = reader.step(FeedEvent::Damaged);
    assert!(lines.is_empty());
    assert_eq!(action, FeedAction::Read);
    let (lines, _) = reader.step(FeedEvent::Chunk(b"\":2}\nrest".to_vec()));
    assert_eq!(lines, ["{\"b\":2}"]);
    let (lines, action) = reader.step(FeedEvent::Ended);
    assert!(lines.is_empty());
    assert_eq!(action, FeedAction::Pause(2));
    reader.step(FeedEvent::Opened);
    let (lines, _) = reader.step(FeedEvent::Chunk(b"new\n".to_vec()));
    assert_eq!(lines, ["new"]);
}

#[test]
fn bytes_that_are_no_text_are_replaced() {
    let mut reader = FeedReader::new();
    let (lines, _) = reader.step(FeedEvent::Chunk(vec![b'a', 0xff, b'b', b'\n']));
    assert_eq!(lines, ["a\u{fffd}b"]);
    let (lines, _) = reader.step(FeedEvent::Chunk("\u{e9}\u{1f4f1}\n".as_bytes().to_vec()));
    assert_eq!(lines, ["\u{e9}\u{1f4f1}"]);
    let (lines, _) = reader.step(FeedEvent::Chunk(vec![0xc3]));
    assert!(lines.is_empty());
    let (lines, _) = reader.step(FeedEvent::Chunk(vec![0xa9, b'\n']));
    assert_eq!(lines, ["\u{fffd}\u{fffd}"]);
}
