use idmon::chart::Drawing;
use idmon::entry::Status;
use idmon::growl::{Alert, Event};
use idmon::message::Message;
use idmon::monitor::{event_on_line, event_on_update, DownloadMonitor};

fn update(m: &mut DownloadMonitor, name: &str, percent: &str, speed: &str) -> Option<Event> {
    m.update_download(
        name.into(),
        percent.into(),
        "9 MB".into(),
        speed.into(),
        "1s".into(),
        "2s".into(),
        "now".into(),
    )
    .map(|a| {
        assert_eq!(a.name, name);
        assert_eq!(a.size, "9 MB");
        a.event
    })
}

fn names(m: &DownloadMonitor) -> Vec<&str> {
    m.downloads.values().map(|e| e.name.as_str()).collect()
}

fn status(m: &DownloadMonitor, name: &str) -> Status {
    m.downloads.get(name).unwrap().status
}

fn line(name: &str, percent: &str, speed: &str) -> String {
    format!(
        "{{\"time\":0,\"title\":\"idm.internet.download.manager.plus\",\"message\":\"{name}\\n{percent}|1 GB|{speed}|1/2\"}}"
    )
}

fn event(alert: Option<Alert>) -> Option<Event> {
    alert.map(|a| a.event)
}

fn digits(list: &[idmon::speed::Speed]) -> Vec<String> {
    list.iter().map(|s| format!("{}x{}", s.digits, s.factor)).collect()
}

#[test]
fn a_new_monitor_is_empty() {
    let m = DownloadMonitor::new(6);
    assert_eq!(m.chart_height, 6);
    assert!(m.downloads.is_empty());
    assert!(m.throughput().is_empty());
    assert!(m.series().is_empty());
    let rows = m.rows();
    assert_eq!(rows.len(), 1);
    assert_eq!(rows[0].name, "Awaiting target stream transmission connection...");
    assert_eq!(rows[0].status, "idle");
    assert!(m.latest_speeds().is_empty());
    assert!(m.last_completed().is_none());
    assert_eq!(m.active_downloads(), 0);
}

#[test]
fn a_report_is_recorded_whole() {
    let mut m = DownloadMonitor::new(6);
    assert_eq!(update(&mut m, "a", "5%", "1MB/s"), Some(Event::Started));
    let e = m.downloads.get("a").unwrap();
    assert_eq!((e.name.as_str(), e.percent.as_str(), e.size.as_str()), ("a", "5%", "9 MB"));
    assert_eq!((e.speed.as_str(), e.eta.as_str(), e.total_duration.as_str()), ("1MB/s", "1s", "2s"));
    assert_eq!((e.timestamp.as_str(), e.status, e.completed), ("now", Status::Run, false));
}

#[test]
fn unchanged_reports_stop_a_download() {
    let mut m = DownloadMonitor::new(6);
    assert_eq!(update(&mut m, "a", "5%", "1MB/s"), Some(Event::Started));
    assert_eq!(update(&mut m, "a", "6%", "1MB/s"), None);
    assert_eq!(status(&m, "a"), Status::Run);
    assert_eq!(update(&mut m, "a", "6%", "1MB/s"), Some(Event::Stopped));
    assert_eq!(status(&m, "a"), Status::Stop);
    assert_eq!(update(&mut m, "a", "6%", "1MB/s"), None);
    assert_eq!(status(&m, "a"), Status::Stop);
    assert_eq!(update(&mut m, "a", "6%", "2MB/s"), Some(Event::Started));
    assert_eq!(update(&mut m, "a", "100%", "2MB/s"), Some(Event::Complete));
    assert_eq!(status(&m, "a"), Status::Done);
    assert_eq!(update(&mut m, "a", "100%", "2MB/s"), None);
    assert_eq!(update(&mut m, "a", "99%", "2MB/s"), None);
    assert_eq!(status(&m, "a"), Status::Run);
}

#[test]
fn a_download_that_is_done_at_first_tells_no_change() {
    let mut m = DownloadMonitor::new(6);
    assert_eq!(update(&mut m, "a", "100%", "0KB/s"), None);
    assert_eq!(status(&m, "a"), Status::Done);
}

#[test]
fn the_latest_report_comes_last() {
    let mut m = DownloadMonitor::new(6);
    for n in ["a", "b", "c"] {
        update(&mut m, n, "1%", "1KB/s");
    }
    assert_eq!(names(&m), ["a", "b", "c"]);
    update(&mut m, "a", "2%", "1KB/s");
    assert_eq!(names(&m), ["b", "c", "a"]);
}

#[test]
fn the_oldest_completed_downloads_leave() {
    let mut m = DownloadMonitor::new(6);
    update(&mut m, "run", "1%", "1KB/s");
    for i in 0..7 {
        update(&mut m, &format!("d{i}"), "100%", "1KB/s");
    }
    assert_eq!(names(&m), ["run", "d2", "d3", "d4", "d5", "d6"]);
    update(&mut m, "d2", "100%", "1KB/s");
    assert_eq!(names(&m), ["run", "d3", "d4", "d5", "d6", "d2"]);
    update(&mut m, "d7", "100%", "1KB/s");
    assert_eq!(names(&m), ["run", "d4", "d5", "d6", "d2", "d7"]);
    assert_eq!(m.active_downloads(), 1);
    m.prune_completed();
    assert_eq!(names(&m), ["run", "d4", "d5", "d6", "d2", "d7"]);
    assert_eq!(update(&mut m, "d3", "1%", "1KB/s"), Some(Event::Started));
}

#[test]
fn the_newest_completed_download_is_named() {
    let mut m = DownloadMonitor::new(6);
    update(&mut m, "a", "1%", "1KB/s");
    assert!(m.newest_completed().is_none());
    update(&mut m, "b", "100%", "1KB/s");
    assert_eq!(m.newest_completed(), Some(("b", "9 MB")));
    update(&mut m, "a", "2%", "1KB/s");
    assert_eq!(m.newest_completed(), Some(("b", "9 MB")));
    update(&mut m, "a", "100%", "1KB/s");
    assert_eq!(m.newest_completed(), Some(("a", "9 MB")));
    update(&mut m, "a", "1%", "1KB/s");
    assert_eq!(m.newest_completed(), Some(("b", "9 MB")));
}

#[test]
fn the_download_that_was_just_completed_is_named() {
    let mut m = DownloadMonitor::new(6);
    update(&mut m, "a", "1%", "1KB/s");
    assert!(m.last_completed().is_none());
    update(&mut m, "b", "100%", "1KB/s");
    assert_eq!(m.last_completed(), Some(("b", "9 MB")));
    update(&mut m, "b", "100%", "1KB/s");
    assert!(m.last_completed().is_none());
    update(&mut m, "a", "100%", "1KB/s");
    assert_eq!(m.last_completed(), Some(("a", "9 MB")));
    update(&mut m, "a", "1%", "1KB/s");
    assert!(m.last_completed().is_none());
    m.parse_raw_data(&line("a", "100%", "1KB/s"));
    assert_eq!(m.last_completed(), Some(("a", "1 GB")));
    assert!(m.receive_line("x").is_none());
    assert_eq!(m.last_completed(), Some(("a", "1 GB")));
    assert!(!m.parse_raw_data("x"));
    assert!(m.last_completed().is_none());
    m.receive_line(&line("c", "100%", "1KB/s"));
    assert_eq!(m.last_completed(), Some(("c", "1 GB")));
    assert!(!m.parse_raw_data("{\"message\":\"other\"}"));
    assert!(m.last_completed().is_none());
}

#[test]
fn speeds_are_sampled() {
    let mut m = DownloadMonitor::new(6);
    update(&mut m, "a", "1%", "1KB/s");
    update(&mut m, "b", "1%", "2 MB/s");
    update(&mut m, "a", "2%", "3B");
    assert_eq!(digits(&m.latest_speeds()), ["2x1048576", "3x1"]);
    let throughput: Vec<Vec<String>> = m.throughput().iter().map(|v| digits(v)).collect();
    assert_eq!(throughput, [vec!["1x1024"], vec!["1x1024", "2x1048576"], vec!["2x1048576", "3x1"]]);
    let series: Vec<(String, usize)> =
        m.series().iter().map(|(n, q)| (n.to_string(), q.len())).collect();
    assert_eq!(series, [("b".to_string(), 1), ("a".to_string(), 2)]);
    update(&mut m, "b", "100%", "4KB");
    assert_eq!(digits(&m.latest_speeds()), ["3x1"]);
    assert_eq!(digits(m.throughput().back().unwrap()), ["3x1"]);
}

#[test]
fn series_are_bounded() {
    let mut m = DownloadMonitor::new(6);
    for i in 0..405 {
        update(&mut m, "a", &format!("{}%", i % 100), &format!("{i}KB/s"));
    }
    let series = m.series();
    assert_eq!(series[0].1.len(), 400);
    assert_eq!(series[0].1[0].digits, "5");
    assert_eq!(series[0].1[399].digits, "404");
    assert_eq!(m.throughput().len(), 400);
    assert_eq!(m.throughput()[0][0].digits, "5");
}

#[test]
fn a_download_that_left_has_no_past() {
    let mut m = DownloadMonitor::new(6);
    for i in 0..6 {
        update(&mut m, &format!("d{i}"), "100%", "1KB/s");
    }
    assert_eq!(names(&m), ["d1", "d2", "d3", "d4", "d5"]);
    update(&mut m, "d0", "1%", "2KB/s");
    update(&mut m, "d1", "1%", "2KB/s");
    let series: Vec<(String, usize)> =
        m.series().iter().map(|(n, q)| (n.to_string(), q.len())).collect();
    assert_eq!(series, [("d0".to_string(), 1), ("d1".to_string(), 2)]);
}

#[test]
fn lines_are_recorded() {
    let mut m = DownloadMonitor::new(6);
    assert!(m.parse_raw_data(&line("a", "5%", "1MB/s")));
    let e = m.downloads.get("a").unwrap();
    assert_eq!(e.timestamp, idmon::clock::stamp(0));
    assert_eq!((e.size.as_str(), e.eta.as_str(), e.total_duration.as_str()), ("1 GB", "1", "2"));
    assert!(m.parse_raw_data("{\"message\":\"idm.internet.x\"}"));
    assert_eq!(names(&m), ["a", "idm.internet.x"]);
}

#[test]
fn lines_that_report_nothing_change_nothing() {
    let mut m = DownloadMonitor::new(6);
    m.parse_raw_data(&line("a", "5%", "1MB/s"));
    for text in ["", "  ", "x", "{}", "{\"title\":\"other\",\"message\":\"idm.internet.\"}", "[1]"] {
        assert!(!m.parse_raw_data(text));
        assert!(m.receive_line(text).is_none());
    }
    assert_eq!(names(&m), ["a"]);
    assert_eq!(m.throughput().len(), 1);
    assert_eq!(status(&m, "a"), Status::Run);
}

#[test]
fn received_lines_are_announced() {
    let mut m = DownloadMonitor::new(6);
    let a = m.receive_line(&line("a", "5%", "1MB/s")).unwrap();
    assert_eq!((a.event, a.name.as_str(), a.size.as_str()), (Event::Started, "a", "1 GB"));
    assert_eq!(event(m.receive_line(&line("a", "6%", "1MB/s"))), None);
    assert_eq!(event(m.receive_line(&line("a", "6%", "1MB/s"))), Some(Event::Stopped));
    assert_eq!(event(m.receive_line(&line("a", "6%", "1MB/s"))), None);
    assert_eq!(event(m.receive_line(&line("a", "7%", "1MB/s"))), Some(Event::Started));
    assert_eq!(event(m.receive_line(&line("a", "100%", "1MB/s"))), Some(Event::Complete));
    assert_eq!(event(m.receive_line(&line("a", "100%", "1MB/s"))), None);
    assert_eq!(event(m.receive_line(&line("b", "100%", "1MB/s"))), Some(Event::Complete));
}

#[test]
fn untitled_lines_are_not_received() {
    let mut m = DownloadMonitor::new(6);
    assert!(m.receive_line("{\"message\":\"idm.internet.x\"}").is_none());
    assert!(m.downloads.is_empty());
}

#[test]
fn wrapped_lines_are_received() {
    let mut m = DownloadMonitor::new(6);
    let inner = line("a", "5%", "1MB/s");
    let wrapped = format!("{{\"id\":1,\"message\":{}}}", serde_json::Value::String(inner));
    assert_eq!(event(m.receive_line(&wrapped)), Some(Event::Started));
    assert_eq!(names(&m), ["a"]);
}

#[test]
fn messages_are_recorded_at_their_time() {
    let mut m = DownloadMonitor::new(6);
    let message = Message {
        time: None,
        title: Some("idm.internet.".into()),
        message: Some("a\n5%".into()),
    };
    assert!(m.record_message(&message, "then".into()));
    assert_eq!(m.downloads.get("a").unwrap().timestamp, "then");
    assert_eq!(event(m.receive_message(&message, "later".into())), Some(Event::Stopped));
    assert_eq!(m.downloads.get("a").unwrap().timestamp, "later");
    let other = Message { time: None, title: Some("x".into()), message: None };
    assert!(!m.record_message(&other, "t".into()));
    assert!(m.receive_message(&other, "t".into()).is_none());
}

#[test]
fn rows_follow_the_downloads() {
    let mut m = DownloadMonitor::new(6);
    update(&mut m, "a", "100%", "1KB/s");
    update(&mut m, "b", "2%", "1KB/s");
    let rows = m.rows();
    assert_eq!(rows.len(), 2);
    assert_eq!((rows[0].number.as_str(), rows[0].name.as_str()), ("1", "a"));
    assert_eq!((rows[1].number.as_str(), rows[1].progress.as_str()), ("2", "2%"));
}

#[test]
fn events_of_all_changes() {
    let (run, stop, done) = (Status::Run, Status::Stop, Status::Done);
    let all = [
        (None, run, Some(Event::Started), Some(Event::Started)),
        (None, stop, None, None),
        (None, done, None, Some(Event::Complete)),
        (Some(run), run, None, None),
        (Some(run), stop, Some(Event::Stopped), Some(Event::Stopped)),
        (Some(run), done, Some(Event::Complete), Some(Event::Complete)),
        (Some(stop), run, Some(Event::Started), Some(Event::Started)),
        (Some(stop), stop, None, None),
        (Some(stop), done, Some(Event::Complete), Some(Event::Complete)),
        (Some(done), run, None, None),
        (Some(done), stop, Some(Event::Stopped), None),
        (Some(done), done, None, None),
    ];
    for (before, after, updated, announced) in all {
        assert_eq!(event_on_update(before, after), updated);
        assert_eq!(event_on_line(before, after), announced);
    }
}

/// Where each name first stands in the table of past speeds, as it is printed for debugging.
fn past_places(m: &DownloadMonitor, names: &[&str]) -> Vec<Option<usize>> {
    let text = format!("{m:?}");
    let from = text.find("speed_history").unwrap();
    let to = text.find("global_speeds").unwrap();
    names.iter().map(|n| text[from..to].find(&format!("\"{n}\": ["))).collect()
}

#[test]
fn past_speeds_keep_their_order() {
    let mut m = DownloadMonitor::new(6);
    for name in ["a", "b", "c"] {
        update(&mut m, name, "1%", "1KB/s");
    }
    update(&mut m, "a", "2%", "1KB/s");
    assert_eq!(names(&m), ["b", "c", "a"]);
    let places = past_places(&m, &["a", "b", "c"]);
    assert!(places[0].unwrap() < places[1].unwrap() && places[1].unwrap() < places[2].unwrap());
    for name in ["b", "d", "e", "f", "g", "h"] {
        update(&mut m, name, "100%", "1KB/s");
    }
    let places = past_places(&m, &["a", "b", "c", "h"]);
    assert!(places[1].is_none());
    assert!(places[0].unwrap() < places[2].unwrap() && places[2].unwrap() < places[3].unwrap());
}

fn drawing() -> Drawing {
    Drawing {
        latest: "1.0 KB".into(),
        drawn: None,
        in_units: vec!["1.0 KB/s".into()],
        plain: vec!["1024.0".into()],
    }
}

fn listed(text: &str) -> Vec<&str> {
    text.split("\n\n").skip(3).map(|part| part.split(' ').next().unwrap()).collect()
}

#[test]
fn the_fastest_downloads_are_charted() {
    let mut m = DownloadMonitor::new(6);
    let none = m.build_chart_text(80, "B", "0 B", None, vec![], &vec![], vec![]);
    assert!(!none.contains("Top file speeds"));
    assert!(none.ends_with("Collecting metrics tracking telemetry sequences..."));
    for (name, speed) in
        [("a", "1KB/s"), ("b", "3MB/s"), ("c", "2KB/s"), ("d", "2KB/s"), ("e", "9B/s")]
    {
        update(&mut m, name, "1%", speed);
    }
    for (name, speed) in [("f", "4KB/s"), ("g", "5GB/s"), ("h", "1B/s")] {
        update(&mut m, name, "2%", speed);
    }
    update(&mut m, "done", "100%", "9GB/s");
    let keys: Vec<u64> = m
        .latest_speeds()
        .iter()
        .map(|s| (s.digits.parse::<f64>().unwrap() * s.factor as f64).to_bits())
        .collect();
    assert_eq!(keys.len(), m.active_downloads());
    let drawings = (0..keys.len()).map(|_| drawing()).collect();
    let recent = vec!["8.0 B/s".to_string()];
    let text = m.build_chart_text(80, "GB", "5.0 GB", None, recent, &keys, drawings);
    assert!(text.starts_with("Global throughput (GB/s)  max 5.0 GB/s\n\n8.0 B/s\n\n\nTop file"));
    assert_eq!(listed(&text), ["g", "b", "f", "c", "d", "a"]);
    assert!(text.ends_with("a (1.0 KB/s): 1024.0"));
}
