use idmon::entry::{DownloadEntry, Status};
use idmon::screen::{
    chart_area_height, decimal_text, table_row, table_title, waiting_row, Tone,
};

fn entry(status: Status) -> DownloadEntry {
    DownloadEntry {
        name: "n".into(),
        percent: "5%".into(),
        size: "s".into(),
        speed: "v".into(),
        eta: "e".into(),
        total_duration: "d".into(),
        timestamp: "t".into(),
        status,
        completed: status == Status::Done,
    }
}

#[test]
fn numbers_are_decimal() {
    for n in [0, 1, 9, 10, 99, 100, 1234567890, usize::MAX] {
        assert_eq!(decimal_text(n), n.to_string());
    }
}

#[test]
fn rows_show_their_downloads() {
    let r = table_row(0, &entry(Status::Run));
    assert_eq!(r.number, "1");
    assert_eq!((r.progress.as_str(), r.progress_tone, r.progress_bold), ("5%", Tone::Cyan, false));
    assert_eq!((r.name.as_str(), r.size.as_str(), r.speed.as_str()), ("n", "s", "v"));
    assert_eq!((r.eta.as_str(), r.total_duration.as_str(), r.timestamp.as_str()), ("e", "d", "t"));
    assert_eq!((r.status.as_str(), r.status_tone), ("\u{26a1} run", Tone::Green));
    let r = table_row(11, &entry(Status::Stop));
    assert_eq!(r.number, "12");
    assert_eq!((r.status.as_str(), r.status_tone), ("\u{1f6d1} stop", Tone::Red));
    let r = table_row(1, &entry(Status::Done));
    assert_eq!((r.progress.as_str(), r.progress_tone, r.progress_bold), ("100%", Tone::Green, true));
    assert_eq!((r.status.as_str(), r.status_tone), ("\u{2705} done", Tone::Green));
}

#[test]
fn the_title_counts_active_downloads() {
    assert_eq!(table_title(3), "\u{1f4e1} Live NTFY-IDM Monitor  (3 active)");
}

#[test]
fn charts_take_at_most_half_of_the_screen() {
    assert_eq!(chart_area_height(6, 60), 22);
    assert_eq!(chart_area_height(6, 44), 22);
    assert_eq!(chart_area_height(6, 43), 21);
    assert_eq!(chart_area_height(1000, 24), 12);
    assert_eq!(chart_area_height(0, 0), 0);
}

#[test]
fn statuses_have_words() {
    assert_eq!(Status::Run.as_str(), "run");
    assert_eq!(Status::Stop.as_str(), "stop");
    assert_eq!(Status::Done.as_str(), "done");
}

#[test]
fn an_empty_table_waits() {
    let r = waiting_row();
    assert!(!r.coloured && !r.progress_bold);
    assert_eq!((r.progress_tone, r.status_tone), (Tone::Plain, Tone::Plain));
    assert_eq!(r.name, "Awaiting target stream transmission connection...");
    assert_eq!(r.status, "idle");
    for cell in [r.number, r.progress, r.size, r.speed, r.eta, r.total_duration, r.timestamp] {
        assert_eq!(cell, "-");
    }
    assert!(table_row(0, &entry(Status::Run)).coloured);
}
