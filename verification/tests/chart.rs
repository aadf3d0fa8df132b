use idmon::chart::{
    build_chart_text, can_show, chart_layout, file_body, global_body, join_charts, rank,
    series_view, short_name, top_charts, ChartBody, FileChart, FileSeries, GlobalSeries,
    RECENT_SPEEDS, RECENT_THROUGHPUTS,
};

fn layout(cols: u16, height: usize) -> (usize, usize, usize, usize) {
    let l = chart_layout(cols, height);
    (l.global_cols, l.global_height, l.file_cols, l.file_height)
}

fn view(len: usize, cols: usize, recent: usize) -> (usize, bool, usize) {
    let v = series_view(len, cols, recent);
    (v.start, v.plotted, v.listed)
}

#[test]
fn charts_fit_the_terminal() {
    assert_eq!(layout(80, 6), (62, 6, 64, 5));
    assert_eq!(layout(28, 3), (10, 3, 12, 2));
    assert_eq!(layout(26, 2), (10, 2, 10, 2));
    assert_eq!(layout(0, 0), (10, 0, 10, 2));
    assert_eq!(layout(u16::MAX, usize::MAX), (65517, usize::MAX, 65519, usize::MAX - 1));
}

#[test]
fn the_latest_samples_are_shown() {
    assert_eq!(view(0, 10, 8), (0, false, 0));
    assert_eq!(view(1, 10, 8), (0, false, 0));
    assert_eq!(view(2, 10, 8), (0, true, 0));
    assert_eq!(view(9, 10, 8), (0, true, 1));
    assert_eq!(view(400, 62, 6), (338, true, 394));
    assert_eq!(view(5, 1, 6), (4, false, 0));
}

#[test]
fn ranks_are_stable() {
    assert_eq!(rank(&vec![]), Vec::<usize>::new());
    assert_eq!(rank(&vec![5, 7, 5, 9, 7]), [3, 1, 4, 0, 2]);
    assert_eq!(top_charts(&vec![5, 7, 5]), [1, 0, 2]);
    assert_eq!(top_charts(&vec![1, 2, 3, 4, 5, 6, 7, 7]), [6, 7, 5, 4, 3, 2]);
    assert_eq!(top_charts(&vec![0; 9]), [0, 1, 2, 3, 4, 5]);
}

#[test]
fn ranks_of_bits_are_ranks_of_speeds() {
    let speeds = [0.0f64, 1024.0, 0.5, 1.0e300, 1024.0, f64::INFINITY, 3.25];
    let keys: Vec<u64> = speeds.iter().map(|v| v.to_bits()).collect();
    let mut expected: Vec<usize> = (0..speeds.len()).collect();
    expected.sort_by(|a, b| speeds[*b].partial_cmp(&speeds[*a]).unwrap());
    assert_eq!(rank(&keys), expected);
}

#[test]
fn long_names_are_cut() {
    let name = "a".repeat(33);
    assert_eq!(short_name(&name), name);
    let name = "0123456789".repeat(4);
    assert!(can_show(&name));
    assert_eq!(short_name(&name), "012345678901234567890123456789...");
    let name = "\u{e9}".repeat(17);
    assert!(can_show(&name));
    assert_eq!(short_name(&name), format!("{}...", "\u{e9}".repeat(15)));
    let name = format!("a{}", "\u{e9}".repeat(17));
    assert!(!can_show(&name));
    let name = format!("a{}", "\u{e9}".repeat(16));
    assert!(can_show(&name));
    assert_eq!(short_name(&name), name);
}

#[test]
fn the_text_collects_metrics_at_first() {
    assert_eq!(
        join_charts("B", "0 B", &None, &vec![]),
        "Global throughput (B/s)  max 0 B/s\n\n  Collecting metrics tracking telemetry sequences..."
    );
}

#[test]
fn the_text_holds_all_charts() {
    let files = vec![
        FileChart {
            name: "0123456789".repeat(4),
            latest: "2.0 MB".into(),
            body: ChartBody::Plot("<plot>".into()),
        },
        FileChart {
            name: "b".into(),
            latest: "1.0 KB".into(),
            body: ChartBody::Recent(vec!["1.0".into(), "2.0".into()]),
        },
    ];
    assert_eq!(
        join_charts("MB", "2.0 MB", &Some(ChartBody::Plot("<all>".into())), &files),
        "Global throughput (MB/s)  max 2.0 MB/s\n\n<all>\n\n\nTop file speeds (MB/s)\n\n\
         012345678901234567890123456789... (2.0 MB/s)\n<plot>\n\nb (1.0 KB/s): 1.0, 2.0"
    );
    let body = Some(ChartBody::Recent(vec!["1.0 B/s".into(), "0 B/s".into()]));
    assert_eq!(
        join_charts("B", "1.0 B", &body, &vec![]),
        "Global throughput (B/s)  max 1.0 B/s\n\n1.0 B/s, 0 B/s"
    );
}

fn shown(body: &ChartBody) -> (bool, String) {
    match body {
        ChartBody::Plot(chart) => (true, chart.clone()),
        ChartBody::Recent(list) => (false, list.join("+")),
    }
}

#[test]
fn what_is_not_drawn_is_listed() {
    let plot = || Some("<plot>".to_string());
    let units = || vec!["1.0 KB/s".to_string(), "2.0 KB/s".to_string()];
    let plain = || vec!["1024.0".to_string()];
    assert!(global_body(false, plot(), units()).is_none());
    assert_eq!(shown(&global_body(true, plot(), units()).unwrap()), (true, "<plot>".into()));
    assert_eq!(
        shown(&global_body(true, None, units()).unwrap()),
        (false, "1.0 KB/s+2.0 KB/s".into())
    );
    assert_eq!(shown(&file_body(true, plot(), units(), plain())), (true, "<plot>".into()));
    assert_eq!(
        shown(&file_body(true, None, units(), plain())),
        (false, "1.0 KB/s+2.0 KB/s".into())
    );
    assert_eq!(shown(&file_body(false, plot(), units(), plain())), (false, "1024.0".into()));
    assert_eq!(view(20, 10, RECENT_THROUGHPUTS), (10, true, 12));
    assert_eq!(view(20, 10, RECENT_SPEEDS), (10, true, 14));
}

fn series(name: &str, len: usize, drawn: Option<&str>) -> FileSeries {
    FileSeries {
        name: name.into(),
        latest: "1.0 KB".into(),
        len,
        drawn: drawn.map(String::from),
        in_units: vec!["1.0 KB/s".into()],
        plain: vec!["1024.0".into()],
    }
}

fn global(len: usize, drawn: Option<&str>) -> GlobalSeries {
    GlobalSeries { len, drawn: drawn.map(String::from), recent: vec!["2.0 KB/s".into()] }
}

#[test]
fn the_text_shows_what_the_columns_hold() {
    assert_eq!(
        build_chart_text(
            80,
            "KB",
            "2.0 KB",
            global(2, Some("<all>")),
            &vec![5, 9, 7],
            &vec![series("b", 3, None), series("a", 2, Some("<a>")), series("c", 1, None)]
        ),
        "Global throughput (KB/s)  max 2.0 KB/s\n\n<all>\n\n\nTop file speeds (KB/s)\n\n\
         a (1.0 KB/s)\n<a>\n\nc (1.0 KB/s): 1024.0\n\nb (1.0 KB/s): 1.0 KB/s"
    );
    assert_eq!(
        build_chart_text(80, "KB", "2.0 KB", global(5, None), &vec![], &vec![]),
        "Global throughput (KB/s)  max 2.0 KB/s\n\n2.0 KB/s"
    );
}

#[test]
fn few_samples_need_no_columns() {
    let on = |cols: u16, drawn: Option<&str>| {
        let files = vec![series("a", 1, drawn), series("b", 0, drawn)];
        build_chart_text(cols, "KB", "1.0 KB", global(1, drawn), &vec![1, 2], &files)
    };
    let text = on(80, None);
    assert!(text.contains("  Collecting metrics tracking telemetry sequences..."));
    assert_eq!(on(0, Some("<plot>")), text);
    assert_eq!(on(u16::MAX, Some("<plot>")), text);
}

#[test]
fn the_largest_keys_are_charted() {
    let names = ["a", "b", "c", "d", "e", "f", "g", "h"];
    let long = format!("a{}", "\u{e9}".repeat(17));
    let mut files: Vec<FileSeries> = names.iter().map(|n| series(n, 1, None)).collect();
    files[0].name = long;
    let keys = vec![0, 4, 9, 4, 1, 7, 3, 2];
    let text = build_chart_text(80, "B", "0 B", global(0, None), &keys, &files);
    let listed: Vec<&str> =
        text.split("\n\n").skip(3).map(|part| part.split(' ').next().unwrap()).collect();
    assert_eq!(listed, ["c", "f", "b", "d", "g", "h"]);
}
