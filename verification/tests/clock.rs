use chrono::{DateTime, Local, NaiveDateTime};
use idmon::clock::{message_second, message_stamp, stamp, stamp_on_clock};

fn local(secs: i64) -> String {
    DateTime::from_timestamp(secs, 0)
        .unwrap()
        .with_timezone(&Local)
        .format("%Y-%m-%d %H:%M:%S")
        .to_string()
}

fn is_about_now(text: &str) -> bool {
    let shown = NaiveDateTime::parse_from_str(text, "%Y-%m-%d %H:%M:%S").unwrap();
    let now = Local::now().naive_local();
    (now - shown).num_seconds().abs() <= 5
}

#[test]
fn seconds_are_shown_on_the_local_clock() {
    for secs in [0, -1, 86_399, 951_782_400, 1_718_000_000, 4_102_444_800, 253_402_300_800] {
        assert_eq!(stamp(secs), local(secs));
        assert_eq!(message_stamp(Some(secs)), local(secs));
    }
}

#[test]
fn the_ends_of_the_calendar_are_shown() {
    for secs in [-8_334_601_228_800i64, 8_210_266_876_799] {
        assert_eq!(stamp(secs), local(secs));
    }
}

#[test]
fn seconds_outside_the_calendar_show_the_present() {
    for secs in [-8_334_601_228_801i64, 8_210_266_876_800, i64::MIN, i64::MAX] {
        assert!(DateTime::from_timestamp(secs, 0).is_none());
        assert!(is_about_now(&stamp(secs)));
    }
}

#[test]
fn a_message_without_a_time_shows_the_present() {
    assert!(is_about_now(&message_stamp(None)));
}

#[test]
fn seconds_are_shown_on_any_clock() {
    assert_eq!(stamp_on_clock(0, Some(0)), "1970-01-01 00:00:00");
    assert_eq!(stamp_on_clock(1_718_000_000, Some(0)), "2024-06-10 06:13:20");
    assert_eq!(stamp_on_clock(1_718_000_000, Some(25_200)), "2024-06-10 13:13:20");
    assert_eq!(stamp_on_clock(0, Some(-86_399)), "1969-12-31 00:00:01");
    assert!(is_about_now(&stamp_on_clock(0, None)));
}

#[test]
fn a_message_is_of_its_time_or_of_now() {
    assert_eq!(message_second(Some(7), Some(9)), 7);
    assert_eq!(message_second(Some(-7), None), -7);
    assert_eq!(message_second(None, Some(9)), 9);
    assert_eq!(message_second(None, None), 0);
}
