//! The monitor: the downloads that were reported, their past speeds, and the changes worth an
//! alert.

use indexmap::IndexMap;
use std::collections::VecDeque;
use vstd::prelude::*;

use crate::chart::{
    build_chart_text, Drawing, DrawingModel, FileSeries, GlobalSeries, SeriesModel,
};
use crate::clock::{read_clock, stamp, Reading};
use crate::entry::{DownloadEntry, EntryModel, Status};
use crate::growl::{Alert, AlertModel, Event};
use crate::message::{
    has_manager_title, read_line, read_report, read_titled_name, Message, MessageModel,
    ReportModel,
};
use crate::screen::{table_row, waiting_row, TableRow};
use crate::speed::{parse_speed, Speed, SpeedModel};
use crate::store::{
    count_downloads, download_at, get_download, get_history, history_slot, insert_download,
    new_downloads, new_history, remove_download, remove_history,
};
use crate::text;

verus! {

use crate::chart::{
    charted, drawing_list, drawn_series, file_series, is_showable, largest_are_charted, picked,
    text_on, GlobalModel,
};
use crate::clock::{next_number, second_of, stamps, stamps_message};
use crate::growl::alert_of;
use crate::message::{
    is_titled, line_message, report_of, text_of, titled_report, unwraps_fully,
};
use crate::screen::{idle_row, row_of};
use crate::speed::{speed_of, speeds};
use crate::store::{downloads_of, history_of};
use crate::table::{
    active_count, active_series, active_speeds, completed_keys, distinct, evicted,
    latest_completed, lookup, past, position, present, with, without, without_all,
};
use crate::table::{
    lemma_completed_keys, lemma_lookup_at, lemma_lookup_without_all, lemma_position,
    lemma_present, lemma_with, lemma_without, lemma_without_all, lemma_without_all_push,
    lemma_without_first, lemma_without_none,
};
use crate::text::texts;

/// How many samples a series of speeds keeps.
pub const MAX_SAMPLES: usize = 400;

/// How many completed downloads stay in the table.
pub const MAX_COMPLETED_VISIBLE: usize = 5;

/// The downloads, in the order of their latest reports, and their speeds.
#[derive(Debug)]
pub struct DownloadMonitor {
    pub chart_height: usize,
    pub downloads: IndexMap<String, DownloadEntry>,
    speed_history: IndexMap<String, VecDeque<Speed>>,
    global_speeds: VecDeque<Vec<Speed>>,
    just_completed: bool,
    clock: Option<Reading>,
}

/// What a [`DownloadMonitor`] stands for: the downloads under their names, the past speeds of
/// each, for each report the speeds whose sum was the throughput after it, and whether what was
/// read last has completed a download.
pub struct MonitorModel {
    pub chart_height: usize,
    pub downloads: Seq<(Seq<char>, EntryModel)>,
    pub history: Seq<(Seq<char>, Seq<SpeedModel>)>,
    pub global: Seq<Seq<SpeedModel>>,
    pub just_completed: bool,
}

/// What a list of throughputs stands for.
pub open spec fn throughputs(list: Seq<Vec<Speed>>) -> Seq<Seq<SpeedModel>> {
    list.map_values(|v: Vec<Speed>| speeds(v@))
}

/// A series with one sample more; the oldest leaves where the series is full.
pub open spec fn sampled<A>(series: Seq<A>, sample: A) -> Seq<A> {
    if series.len() >= MAX_SAMPLES {
        series.skip(1).push(sample)
    } else {
        series.push(sample)
    }
}

/// Where a download stands after a report: done at `100%`; stopped where it was not done before
/// and neither its speed nor its percentage has changed; else running.
pub open spec fn status_after(before: Option<EntryModel>, r: ReportModel) -> Status {
    if r.percent == "100%"@ {
        Status::Done
    } else {
        match before {
            Some(e) => if !e.completed && e.speed == r.speed && e.percent == r.percent {
                Status::Stop
            } else {
                Status::Run
            },
            None => Status::Run,
        }
    }
}

/// Tells whether a report completes a download: it is done, and was not before.
pub open spec fn completes(before: Option<EntryModel>, r: ReportModel) -> bool {
    r.percent == "100%"@ && !(before matches Some(e) && e.completed)
}

/// What is known of a download after a report.
pub open spec fn entry_after(
    before: Option<EntryModel>,
    r: ReportModel,
    timestamp: Seq<char>,
) -> EntryModel {
    EntryModel {
        name: r.name,
        percent: r.percent,
        size: r.size,
        speed: r.speed,
        eta: r.eta,
        total_duration: r.total_duration,
        timestamp,
        status: status_after(before, r),
        completed: r.percent == "100%"@,
    }
}

/// The status of an optional download.
pub open spec fn status_of(e: Option<EntryModel>) -> Option<Status> {
    match e {
        Some(e) => Some(e.status),
        None => None,
    }
}

/// The event that a report makes of a change of status: a download that is new or was stopped
/// starts to run, one stops, one that was there before is done.
pub open spec fn update_event(before: Option<Status>, after: Status) -> Option<Event> {
    match before {
        None => if after is Run {
            Some(Event::Started)
        } else {
            None
        },
        Some(s) => if s == after {
            None
        } else {
            match after {
                Status::Done => Some(Event::Complete),
                Status::Stop => Some(Event::Stopped),
                Status::Run => if s is Stop {
                    Some(Event::Started)
                } else {
                    None
                },
            }
        },
    }
}

/// The event that is announced: a download that is new or was stopped starts to run, one that
/// ran stops, one that was not done is done.
pub open spec fn line_event(before: Option<Status>, after: Status) -> Option<Event> {
    match after {
        Status::Run => if before is None || before == Some(Status::Stop) {
            Some(Event::Started)
        } else {
            None
        },
        Status::Stop => if before == Some(Status::Run) {
            Some(Event::Stopped)
        } else {
            None
        },
        Status::Done => if before == Some(Status::Done) {
            None
        } else {
            Some(Event::Complete)
        },
    }
}

/// The alert that an event of a download makes.
pub open spec fn alert_on(event: Option<Event>, name: Seq<char>, size: Seq<char>) -> Option<
    AlertModel,
> {
    match event {
        Some(event) => Some(AlertModel { event, name, size }),
        None => None,
    }
}

/// The report that a line makes, if it makes one.
pub open spec fn line_report(line: Seq<char>) -> Option<ReportModel> {
    match line_message(line) {
        Some(m) => report_of(m),
        None => None,
    }
}

impl MonitorModel {
    /// What holds of every monitor: each download stands once, under its own name, and is
    /// completed where it is done and where its percentage is `100%`; no more completed
    /// downloads than [`MAX_COMPLETED_VISIBLE`]; speeds of these downloads and no others, at
    /// least one and at most [`MAX_SAMPLES`] of each; at most so many throughputs; and a download
    /// that was just completed stands last.
    pub open spec fn wf(self) -> bool {
        &&& keyed(self.downloads)
        &&& distinct(self.downloads)
        &&& completed_keys(self.downloads).len() <= MAX_COMPLETED_VISIBLE
        &&& covers(self.history, self.downloads)
        &&& self.global.len() <= MAX_SAMPLES
        &&& self.just_completed ==> self.downloads.len() > 0 && self.downloads.last().1.completed
    }

    /// The download with a name.
    pub open spec fn get(self, name: Seq<char>) -> Option<EntryModel> {
        lookup(self.downloads, name)
    }

    /// The download that was completed by what was read last.
    pub open spec fn last_completed(self) -> Option<EntryModel> {
        if self.just_completed {
            latest_completed(self.downloads)
        } else {
            None
        }
    }

    /// The series of the downloads that are not completed, each with its drawing, in the order of
    /// the downloads.
    pub open spec fn drawn(self, drawings: Seq<DrawingModel>) -> Seq<SeriesModel> {
        let series = active_series(self.downloads, self.history);
        Seq::new(
            series.len(),
            |i: int| drawn_series(series[i].0, series[i].1.len() as int, drawings[i]),
        )
    }

    /// The text of the charts on a terminal with `term_cols` columns: of the throughput, and of
    /// the downloads that are not completed and have the largest keys, the largest first.
    pub open spec fn chart_text(
        self,
        term_cols: u16,
        unit: Seq<char>,
        max: Seq<char>,
        drawn: Option<Seq<char>>,
        recent: Seq<Seq<char>>,
        keys: Seq<u64>,
        drawings: Seq<DrawingModel>,
    ) -> Seq<char> {
        text_on(
            term_cols,
            unit,
            max,
            GlobalModel { len: self.global.len() as int, drawn, recent },
            picked(self.drawn(drawings), charted(keys)),
        )
    }

    /// The monitor after something was read that makes no report.
    pub open spec fn unmoved(self) -> MonitorModel {
        MonitorModel { just_completed: false, ..self }
    }

    /// The downloads right after a report, before completed ones leave.
    pub open spec fn listed(self, r: ReportModel, timestamp: Seq<char>) -> Seq<
        (Seq<char>, EntryModel),
    > {
        without(self.downloads, r.name).push(
            (r.name, entry_after(self.get(r.name), r, timestamp)),
        )
    }

    /// The past speeds right after a report, before those of completed downloads leave: those of
    /// the download have one sample more, in their place, or come last where they are new.
    pub open spec fn measured(self, r: ReportModel) -> Seq<(Seq<char>, Seq<SpeedModel>)> {
        with(self.history, r.name, sampled(past(self.history, r.name), speed_of(r.speed)))
    }

    /// The monitor without the completed downloads that are too many, and without their speeds;
    /// what stays keeps its order.
    pub open spec fn pruned(self) -> MonitorModel {
        let gone = evicted(self.downloads, MAX_COMPLETED_VISIBLE as int);
        MonitorModel {
            downloads: without_all(self.downloads, gone),
            history: without_all(self.history, gone),
            ..self
        }
    }

    /// The monitor after a report that was made at `timestamp`: the download comes last, its
    /// speed and the throughput are sampled, and the oldest completed downloads leave where
    /// there are too many.
    pub open spec fn recorded(self, r: ReportModel, timestamp: Seq<char>) -> MonitorModel {
        MonitorModel {
            chart_height: self.chart_height,
            downloads: self.listed(r, timestamp),
            history: self.measured(r),
            global: sampled(
                self.global,
                active_speeds(self.listed(r, timestamp), self.measured(r)),
            ),
            just_completed: completes(self.get(r.name), r),
        }.pruned()
    }
}

/// Tells whether each download stands under its own name and is completed where it is done and
/// where its percentage is `100%`.
pub open spec fn keyed(d: Seq<(Seq<char>, EntryModel)>) -> bool {
    forall|i: int|
        0 <= i < d.len() ==> {
            &&& (#[trigger] d[i]).0 == d[i].1.name
            &&& d[i].1.completed == (d[i].1.percent == "100%"@)
            &&& d[i].1.completed == (d[i].1.status is Done)
        }
}

/// Tells whether `h` holds speeds of the downloads in `d`, once for each, and of no others, at
/// least one and at most [`MAX_SAMPLES`] of each.
pub open spec fn covers(
    h: Seq<(Seq<char>, Seq<SpeedModel>)>,
    d: Seq<(Seq<char>, EntryModel)>,
) -> bool {
    &&& distinct(h)
    &&& forall|k: Seq<char>| #[trigger] present(h, k) <==> present(d, k)
    &&& forall|i: int| 0 <= i < h.len() ==> 0 < (#[trigger] h[i]).1.len() <= MAX_SAMPLES
}

/// The event that a report makes of a change of status.
pub fn event_on_update(before: Option<Status>, after: Status) -> (r: Option<Event>)
    ensures
        r == update_event(before, after),
{
    match before {
        None => match after {
            Status::Run => Some(Event::Started),
            _ => None,
        },
        Some(s) => if s == after {
            None
        } else {
            match after {
                Status::Done => Some(Event::Complete),
                Status::Stop => Some(Event::Stopped),
                Status::Run => match s {
                    Status::Stop => Some(Event::Started),
                    _ => None,
                },
            }
        },
    }
}

/// The event that is announced on a change of status.
pub fn event_on_line(before: Option<Status>, after: Status) -> (r: Option<Event>)
    ensures
        r == line_event(before, after),
{
    match (before, after) {
        (None, Status::Run) => Some(Event::Started),
        (Some(Status::Stop), Status::Run) => Some(Event::Started),
        (Some(Status::Run), Status::Stop) => Some(Event::Stopped),
        (Some(Status::Done), Status::Done) => None,
        (_, Status::Done) => Some(Event::Complete),
        _ => None,
    }
}

fn make_alert(event: Option<Event>, name: String, size: String) -> (r: Option<Alert>)
    ensures
        alert_of(r) == alert_on(event, name@, size@),
{
    match event {
        Some(event) => Some(Alert { event, name, size }),
        None => None,
    }
}

impl View for DownloadMonitor {
    type V = MonitorModel;

    closed spec fn view(&self) -> MonitorModel {
        MonitorModel {
            chart_height: self.chart_height,
            downloads: downloads_of(self.downloads),
            history: history_of(self.speed_history),
            global: throughputs(self.global_speeds@),
            just_completed: self.just_completed,
        }
    }
}

impl DownloadMonitor {
    /// The last reading of the machine's clock, made for the last message without a time. It is
    /// no part of what the monitor stands for.
    pub closed spec fn reading(&self) -> Option<Reading> {
        self.clock
    }

    /// A monitor without downloads.
    pub fn new(chart_height: usize) -> (r: Self)
        ensures
            r@ == (MonitorModel {
                chart_height,
                downloads: Seq::empty(),
                history: Seq::empty(),
                global: Seq::empty(),
                just_completed: false,
            }),
            r@.wf(),
    {
        let r = DownloadMonitor {
            chart_height,
            downloads: new_downloads(),
            speed_history: new_history(),
            global_speeds: VecDeque::with_capacity(MAX_SAMPLES),
            just_completed: false,
            clock: None,
        };
        assert(r@.downloads == Seq::<(Seq<char>, EntryModel)>::empty());
        assert(r@.history == Seq::<(Seq<char>, Seq<SpeedModel>)>::empty());
        assert(r@.global == Seq::<Seq<SpeedModel>>::empty());
        r
    }

    /// The latest speed of each download that is not completed, in the order of the downloads.
    pub fn latest_speeds(&self) -> (r: Vec<Speed>)
        ensures
            speeds(r@) == active_speeds(self@.downloads, self@.history),
    {
        let ghost d = self@.downloads;
        let ghost h = self@.history;
        let n: usize = count_downloads(&self.downloads);
        let mut out: Vec<Speed> = Vec::new();
        let mut i: usize = 0;
        assert(speeds(out@) == active_speeds(d.take(0), h));
        while i < n
            invariant
                i <= n,
                n == d.len(),
                d == downloads_of(self.downloads),
                h == history_of(self.speed_history),
                speeds(out@) == active_speeds(d.take(i as int), h),
            decreases n - i,
        {
            assert(d.take(i + 1).drop_last() == d.take(i as int));
            if let Some((_, e)) = download_at(&self.downloads, i) {
                if !e.completed {
                    if let Some(q) = get_history(&self.speed_history, e.name.as_str()) {
                        let m: usize = q.len();
                        if m > 0 {
                            let ghost before = out@;
                            out.push(q[m - 1].copy());
                            assert(speeds(out@) == speeds(before).push(past(h, e@.name).last()));
                        }
                    }
                }
            }
            i = i + 1;
        }
        assert(d.take(n as int) == d);
        out
    }

    /// Takes the oldest completed downloads out where there are more than
    /// [`MAX_COMPLETED_VISIBLE`].
    pub fn prune_completed(&mut self)
        requires
            distinct(old(self)@.downloads),
            distinct(old(self)@.history),
        ensures
            final(self)@ == old(self)@.pruned(),
            final(self).reading() == old(self).reading(),
    {
        let ghost d = self@.downloads;
        let ghost h = self@.history;
        let n: usize = count_downloads(&self.downloads);
        let mut done: Vec<String> = Vec::new();
        let mut i: usize = 0;
        assert(texts(done@) == completed_keys(d.take(0)));
        while i < n
            invariant
                i <= n,
                n == d.len(),
                *self == *old(self),
                d == downloads_of(self.downloads),
                texts(done@) == completed_keys(d.take(i as int)),
            decreases n - i,
        {
            assert(d.take(i + 1).drop_last() == d.take(i as int));
            if let Some((k, e)) = download_at(&self.downloads, i) {
                if e.completed {
                    let ghost before = done@;
                    done.push(k.clone());
                    assert(texts(done@) == texts(before).push(k@));
                }
            }
            i = i + 1;
        }
        assert(d.take(n as int) == d);
        let ghost gone = evicted(d, MAX_COMPLETED_VISIBLE as int);
        proof {
            lemma_without_none(d);
            lemma_without_none(h);
            assert(gone.take(0) == Seq::<Seq<char>>::empty());
        }
        if done.len() > MAX_COMPLETED_VISIBLE {
            let m: usize = done.len() - MAX_COMPLETED_VISIBLE;
            let mut j: usize = 0;
            while j < m
                invariant
                    j <= m,
                    m == gone.len(),
                    m <= done@.len(),
                    gone == texts(done@).take(m as int),
                    distinct(d),
                    distinct(h),
                    self.chart_height == old(self).chart_height,
                    self.global_speeds == old(self).global_speeds,
                    self.just_completed == old(self).just_completed,
                    self.clock == old(self).clock,
                    downloads_of(self.downloads) == without_all(d, gone.take(j as int)),
                    history_of(self.speed_history) == without_all(h, gone.take(j as int)),
                decreases m - j,
            {
                let k = done[j].as_str();
                assert(k@ == gone[j as int]);
                proof {
                    lemma_without_all_push(d, gone.take(j as int), k@);
                    lemma_without_all_push(h, gone.take(j as int), k@);
                    assert(gone.take(j as int).push(k@) == gone.take(j + 1));
                }
                let _ = remove_download(&mut self.downloads, k);
                let _ = remove_history(&mut self.speed_history, k);
                j = j + 1;
            }
            assert(gone.take(m as int) == gone);
        } else {
            assert(gone == gone.take(0));
        }
    }

    /// Records a report that was made at `timestamp`, and tells the change that it makes.
    pub fn update_download(
        &mut self,
        name: String,
        percent: String,
        size: String,
        speed: String,
        eta: String,
        total_duration: String,
        timestamp: String,
    ) -> (r: Option<Alert>)
        requires
            old(self)@.wf(),
        ensures
            final(self)@.wf(),
            ({
                let report = ReportModel {
                    name: name@,
                    percent: percent@,
                    size: size@,
                    speed: speed@,
                    eta: eta@,
                    total_duration: total_duration@,
                };
                let before = old(self)@.get(name@);
                &&& final(self)@ == old(self)@.recorded(report, timestamp@)
                &&& alert_of(r) == alert_on(
                    update_event(status_of(before), status_after(before, report)),
                    name@,
                    size@,
                )
            }),
            final(self).reading() == old(self).reading(),
    {
        let ghost m = self@;
        let ghost report = ReportModel {
            name: name@,
            percent: percent@,
            size: size@,
            speed: speed@,
            eta: eta@,
            total_duration: total_duration@,
        };
        proof {
            lemma_without(m.downloads, name@);
            lemma_listed(m, report, timestamp@);
        }
        let completed = text::same(percent.as_str(), "100%");
        let (before, was_completed, status) = match get_download(&self.downloads, name.as_str()) {
            Some(e) => {
                let status = if completed {
                    Status::Done
                } else if !e.completed && e.speed == speed && e.percent == percent {
                    Status::Stop
                } else {
                    Status::Run
                };
                (Some(e.status), e.completed, status)
            },
            None => (
                None,
                false,
                if completed {
                    Status::Done
                } else {
                    Status::Run
                },
            ),
        };
        let sample = parse_speed(speed.as_str());
        let entry = DownloadEntry {
            name: name.clone(),
            percent,
            size: size.clone(),
            speed,
            eta,
            total_duration,
            timestamp,
            status,
            completed,
        };
        let _ = remove_download(&mut self.downloads, name.as_str());
        let _ = insert_download(&mut self.downloads, name.clone(), entry);
        assert(self@.downloads == m.listed(report, timestamp@));

        let slot = history_slot(&mut self.speed_history, name.clone());
        let ghost series = slot@;
        if slot.len() >= MAX_SAMPLES {
            let _ = slot.pop_front();
        }
        let ghost shorter = slot@;
        slot.push_back(sample);
        proof {
            assert(speeds(shorter.push(sample)) == speeds(shorter).push(sample@));
            if series.len() > 0 {
                assert(speeds(series.subrange(1, series.len() as int)) == speeds(series).skip(1));
            }
        }
        assert(self@.history == m.measured(report));

        let total = self.latest_speeds();
        let ghost global = self.global_speeds@;
        if self.global_speeds.len() >= MAX_SAMPLES {
            let _ = self.global_speeds.pop_front();
        }
        let ghost rest = self.global_speeds@;
        self.global_speeds.push_back(total);
        proof {
            assert(throughputs(rest.push(total)) == throughputs(rest).push(speeds(total@)));
            if global.len() > 0 {
                assert(throughputs(global.subrange(1, global.len() as int)) == throughputs(
                    global,
                ).skip(1));
            }
        }
        self.just_completed = completed && !was_completed;
        proof {
            lemma_pruned(self@);
        }
        self.prune_completed();
        make_alert(event_on_update(before, status), name, size)
    }

    /// Records the report that a message makes, if it makes one, as made at `timestamp`, and tells
    /// whether it does.
    pub fn record_message(&mut self, m: &Message, timestamp: String) -> (r: bool)
        requires
            old(self)@.wf(),
        ensures
            final(self)@.wf(),
            match report_of(m@) {
                Some(report) => r && final(self)@ == old(self)@.recorded(report, timestamp@),
                None => !r && final(self)@ == old(self)@.unmoved(),
            },
            final(self).reading() == old(self).reading(),
    {
        match read_report(m) {
            Some(report) => {
                let _ = self.update_download(
                    report.name,
                    report.percent,
                    report.size,
                    report.speed,
                    report.eta,
                    report.total_duration,
                    timestamp,
                );
                true
            },
            None => {
                self.just_completed = false;
                false
            },
        }
    }

    /// The time that stands on what is read now: that of the message, or, where it has none, that
    /// which the machine's clock shows.
    fn timestamp(&mut self, time: Option<i64>) -> (r: String)
        ensures
            final(self)@ == old(self)@,
            stamps_message(r@, time),
            time matches Some(secs) ==> stamps(r@, secs) && final(self).reading() == old(
                self,
            ).reading(),
            time is None ==> (final(self).reading() matches Some(now) && now@.number == next_number(
                old(self).reading(),
            ) && stamps(r@, second_of(None, now@.elapsed))),
    {
        match time {
            Some(secs) => stamp(secs),
            None => {
                let now = read_clock(&self.clock);
                let secs: i64 = now.second();
                self.clock = Some(now);
                let t = stamp(secs);
                assert(stamps(t@, secs));
                t
            },
        }
    }

    /// Records the report that a line of the stream makes, if it makes one, and tells whether it
    /// does. A report without a time is made when the line is read: the clock is then read anew,
    /// and what it shows stands on the report.
    pub fn parse_raw_data(&mut self, raw: &str) -> (r: bool)
        requires
            old(self)@.wf(),
        ensures
            final(self)@.wf(),
            match line_report(raw@) {
                Some(report) => r && exists|t: Seq<char>| #[trigger]
                    stamps_message(t, line_time(raw@)) && final(self)@ == old(self)@.recorded(
                        report,
                        t,
                    ),
                None => !r && final(self)@ == old(self)@.unmoved(),
            },
            unwraps_fully(raw@),
            line_report(raw@) matches Some(report) ==> stamped_as_read(
                line_time(raw@),
                old(self).reading(),
                final(self).reading(),
                final(self)@.get(report.name),
            ),
    {
        match read_line(raw) {
            Some(m) => {
                let t = self.timestamp(m.time);
                assert(stamps_message(t@, line_time(raw@)));
                proof {
                    if let Some(report) = line_report(raw@) {
                        newest_report_is_last(self@, report, t@);
                    }
                }
                self.record_message(&m, t)
            },
            None => {
                self.just_completed = false;
                false
            },
        }
    }

    /// Records the report that a message with the download manager's title makes, as made at
    /// `timestamp`, and tells the change that is to be announced.
    pub fn receive_message(&mut self, m: &Message, timestamp: String) -> (r: Option<Alert>)
        requires
            old(self)@.wf(),
        ensures
            final(self)@.wf(),
            is_titled(m@) ==> final(self)@ == old(self)@.recorded(titled_report(m@), timestamp@)
                && alert_of(r) == titled_alert(old(self)@, m@),
            !is_titled(m@) ==> final(self)@ == old(self)@ && r is None,
            final(self).reading() == old(self).reading(),
    {
        if !has_manager_title(m) {
            return None;
        }
        let name = read_titled_name(m);
        let before = match get_download(&self.downloads, name.as_str()) {
            Some(e) => Some(e.status),
            None => None,
        };
        proof {
            newest_report_is_last(self@, titled_report(m@), timestamp@);
        }
        let _ = self.record_message(m, timestamp);
        match get_download(&self.downloads, name.as_str()) {
            Some(e) => {
                let size = e.size.clone();
                make_alert(event_on_line(before, e.status), name, size)
            },
            None => None,
        }
    }

    /// Records the report that a line makes, where its message has the download manager's title,
    /// and tells the change that is to be announced. A report without a time is made when the line
    /// is received: the clock is then read anew, and what it shows stands on the report.
    pub fn receive_line(&mut self, line: &str) -> (r: Option<Alert>)
        requires
            old(self)@.wf(),
        ensures
            final(self)@.wf(),
            match line_message(line@) {
                Some(m) if is_titled(m) => {
                    &&& exists|t: Seq<char>| #[trigger]
                        stamps_message(t, m.time) && final(self)@ == old(self)@.recorded(
                            titled_report(m),
                            t,
                        )
                    &&& alert_of(r) == titled_alert(old(self)@, m)
                },
                _ => final(self)@ == old(self)@ && r is None,
            },
            unwraps_fully(line@),
            line_message(line@) matches Some(m) ==> is_titled(m) ==> stamped_as_read(
                m.time,
                old(self).reading(),
                final(self).reading(),
                final(self)@.get(titled_report(m).name),
            ),
    {
        match read_line(line) {
            Some(m) => {
                if !has_manager_title(&m) {
                    return None;
                }
                let t = self.timestamp(m.time);
                assert(stamps_message(t@, m@.time));
                proof {
                    newest_report_is_last(self@, titled_report(m@), t@);
                }
                self.receive_message(&m, t)
            },
            None => None,
        }
    }

    /// The name and the size of the download that was just completed, if what was read last has
    /// completed one.
    pub fn last_completed(&self) -> (r: Option<(&str, &str)>)
        ensures
            match r {
                Some(p) => self@.last_completed() matches Some(e) && p.0@ == e.name && p.1@
                    == e.size,
                None => self@.last_completed() is None,
            },
    {
        if self.just_completed {
            self.newest_completed()
        } else {
            None
        }
    }

    /// The name and the size of the completed download that was reported last.
    pub fn newest_completed(&self) -> (r: Option<(&str, &str)>)
        ensures
            match r {
                Some(p) => latest_completed(self@.downloads) matches Some(e) && p.0@ == e.name
                    && p.1@ == e.size,
                None => latest_completed(self@.downloads) is None,
            },
    {
        let ghost d = self@.downloads;
        let mut i: usize = count_downloads(&self.downloads);
        assert(d.take(i as int) == d);
        while i > 0
            invariant
                i <= d.len(),
                d == downloads_of(self.downloads),
                latest_completed(d.take(i as int)) == latest_completed(d),
            decreases i,
        {
            assert(d.take(i as int).drop_last() == d.take(i - 1));
            if let Some((_, e)) = download_at(&self.downloads, i - 1) {
                if e.completed {
                    return Some((e.name.as_str(), e.size.as_str()));
                }
            }
            i = i - 1;
        }
        None
    }

    /// The number of downloads that are not completed.
    pub fn active_downloads(&self) -> (r: usize)
        ensures
            r == active_count(self@.downloads),
    {
        let ghost d = self@.downloads;
        let n: usize = count_downloads(&self.downloads);
        let mut r: usize = 0;
        let mut i: usize = 0;
        while i < n
            invariant
                i <= n,
                r <= i,
                n == d.len(),
                d == downloads_of(self.downloads),
                r == active_count(d.take(i as int)),
            decreases n - i,
        {
            assert(d.take(i + 1).drop_last() == d.take(i as int));
            if let Some((_, e)) = download_at(&self.downloads, i) {
                if !e.completed {
                    r = r + 1;
                }
            }
            i = i + 1;
        }
        assert(d.take(n as int) == d);
        r
    }

    /// The throughput after each report: the speeds of which it is the sum.
    pub fn throughput(&self) -> (r: &VecDeque<Vec<Speed>>)
        ensures
            throughputs(r@) == self@.global,
    {
        &self.global_speeds
    }

    /// The name and the past speeds of each download that is not completed, in the order of the
    /// downloads.
    pub fn series(&self) -> (r: Vec<(&str, &VecDeque<Speed>)>)
        ensures
            series_of(r@) == active_series(self@.downloads, self@.history),
    {
        let ghost d = self@.downloads;
        let ghost h = self@.history;
        let n: usize = count_downloads(&self.downloads);
        let mut out: Vec<(&str, &VecDeque<Speed>)> = Vec::new();
        let mut i: usize = 0;
        assert(series_of(out@) == active_series(d.take(0), h));
        while i < n
            invariant
                i <= n,
                n == d.len(),
                d == downloads_of(self.downloads),
                h == history_of(self.speed_history),
                series_of(out@) == active_series(d.take(i as int), h),
            decreases n - i,
        {
            assert(d.take(i + 1).drop_last() == d.take(i as int));
            if let Some((_, e)) = download_at(&self.downloads, i) {
                if !e.completed {
                    if let Some(q) = get_history(&self.speed_history, e.name.as_str()) {
                        if q.len() > 0 {
                            let ghost before = out@;
                            out.push((e.name.as_str(), q));
                            assert(series_of(out@) == series_of(before).push(
                                (e@.name, past(h, e@.name)),
                            ));
                        }
                    }
                }
            }
            i = i + 1;
        }
        assert(d.take(n as int) == d);
        out
    }

    /// The text of the charts on a terminal with `term_cols` columns. `unit` is the unit of all
    /// charts and `max` the largest throughput, both without the `/s`; `drawn` is the throughput's
    /// chart, where one was drawn, and `recent` its latest samples. `keys` are in the order of the
    /// latest speeds of [`Self::series`], and `drawings` are what is drawn of these.
    pub fn build_chart_text(
        &self,
        term_cols: u16,
        unit: &str,
        max: &str,
        drawn: Option<String>,
        recent: Vec<String>,
        keys: &Vec<u64>,
        drawings: Vec<Drawing>,
    ) -> (r: String)
        requires
            keys@.len() == active_series(self@.downloads, self@.history).len(),
            drawings@.len() == keys@.len(),
            forall|i: int|
                0 <= i < charted(keys@).len() ==> is_showable(
                    active_series(self@.downloads, self@.history)[#[trigger] charted(
                        keys@,
                    )[i] as int].0,
                ),
        ensures
            r@ == self@.chart_text(
                term_cols,
                unit@,
                max@,
                text_of(drawn),
                texts(recent@),
                keys@,
                drawing_list(drawings@),
            ),
    {
        let ghost all = self@.drawn(drawing_list(drawings@));
        let series = self.series();
        let mut files: Vec<FileSeries> = Vec::new();
        let mut rest = drawings;
        let n: usize = series.len();
        let mut i: usize = 0;
        assert(n == series_of(series@).len());
        assert(file_series(files@) == all.take(0));
        while i < n
            invariant
                i <= n,
                n == series@.len(),
                n == drawings@.len(),
                n == all.len(),
                all == self@.drawn(drawing_list(drawings@)),
                series_of(series@) == active_series(self@.downloads, self@.history),
                rest@ == drawings@.skip(i as int),
                files@.len() == i,
                file_series(files@) == all.take(i as int),
            decreases n - i,
        {
            let ghost before = files@;
            let d = rest.remove(0);
            assert(d == drawings@[i as int]);
            let (name, past) = series[i];
            assert(series_of(series@)[i as int] == (name@, speeds(past@)));
            files.push(
                FileSeries {
                    name: name.to_owned(),
                    latest: d.latest,
                    len: past.len(),
                    drawn: d.drawn,
                    in_units: d.in_units,
                    plain: d.plain,
                },
            );
            assert(file_series(files@) == file_series(before).push(all[i as int]));
            i = i + 1;
        }
        assert(all.take(n as int) == all);
        proof {
            largest_are_charted(keys@);
            assert forall|j: int| 0 <= j < charted(keys@).len() implies is_showable(
                files@[#[trigger] charted(keys@)[j] as int]@.name,
            ) by {
                let k = charted(keys@)[j] as int;
                assert(file_series(files@)[k] == all[k]);
            }
        }
        let global = GlobalSeries { len: self.global_speeds.len(), drawn, recent };
        build_chart_text(term_cols, unit, max, global, keys, &files)
    }

    /// The rows of the table: one for each download, in their order; where there is none, the one
    /// that says so.
    pub fn rows(&self) -> (r: Vec<TableRow>)
        ensures
            self@.downloads.len() == 0 ==> r@.len() == 1 && r@[0]@ == idle_row(),
            self@.downloads.len() > 0 ==> {
                &&& r@.len() == self@.downloads.len()
                &&& forall|i: int|
                    0 <= i < r@.len() ==> (#[trigger] r@[i])@ == row_of(i, self@.downloads[i].1)
            },
    {
        let ghost d = self@.downloads;
        let n: usize = count_downloads(&self.downloads);
        let mut out: Vec<TableRow> = Vec::new();
        let mut i: usize = 0;
        while i < n
            invariant
                i <= n,
                n == d.len(),
                d == downloads_of(self.downloads),
                out@.len() == i,
                forall|j: int| 0 <= j < i ==> (#[trigger] out@[j])@ == row_of(j, d[j].1),
            decreases n - i,
        {
            if let Some((_, e)) = download_at(&self.downloads, i) {
                out.push(table_row(i, e));
            }
            i = i + 1;
        }
        if n == 0 {
            out.push(waiting_row());
        }
        out
    }
}

/// What a list of series stands for.
pub open spec fn series_of(list: Seq<(&str, &VecDeque<Speed>)>) -> Seq<
    (Seq<char>, Seq<SpeedModel>),
> {
    list.map_values(|s: (&str, &VecDeque<Speed>)| (s.0@, speeds(s.1@)))
}

/// Tells whether a download has the time of its report: that of the message, where it has one; else
/// that of the second which the machine's clock showed in the reading `now`, and that reading was
/// made after `last`.
pub open spec fn stamped_as_read(
    time: Option<i64>,
    last: Option<Reading>,
    now: Option<Reading>,
    e: Option<EntryModel>,
) -> bool {
    e matches Some(e) && match time {
        Some(secs) => stamps(e.timestamp, secs) && now == last,
        None => now matches Some(n) && n@.number == next_number(last) && stamps(
            e.timestamp,
            second_of(None, n@.elapsed),
        ),
    }
}

/// The time of the message that a line carries.
pub open spec fn line_time(line: Seq<char>) -> Option<i64> {
    match line_message(line) {
        Some(m) => m.time,
        None => None,
    }
}

/// The alert that a message with the download manager's title makes.
pub open spec fn titled_alert(before: MonitorModel, m: MessageModel) -> Option<AlertModel> {
    let r = titled_report(m);
    let e = before.get(r.name);
    alert_on(line_event(status_of(e), status_after(e, r)), r.name, r.size)
}

/// The download that was just reported stands last: no other is newer, and it never leaves to
/// make room for others.
pub proof fn newest_report_is_last(m: MonitorModel, r: ReportModel, timestamp: Seq<char>)
    requires
        m.wf(),
    ensures
        m.recorded(r, timestamp).downloads.len() > 0,
        m.recorded(r, timestamp).downloads.last() == (
            r.name,
            entry_after(m.get(r.name), r, timestamp),
        ),
        m.recorded(r, timestamp).get(r.name) == Some(entry_after(m.get(r.name), r, timestamp)),
{
    let d = m.listed(r, timestamp);
    let gone = evicted(d, MAX_COMPLETED_VISIBLE as int);
    let w = without_all(d, gone);
    lemma_listed(m, r, timestamp);
    lemma_last_stays(d);
    lemma_without_all(d, gone);
    lemma_lookup_at(w, w.len() - 1);
}

/// The last download stays where completed downloads that are too many leave.
proof fn lemma_last_stays(d: Seq<(Seq<char>, EntryModel)>)
    requires
        distinct(d),
        d.len() > 0,
    ensures
        ({
            let w = without_all(d, evicted(d, MAX_COMPLETED_VISIBLE as int));
            w.len() > 0 && w.last() == d.last()
        }),
{
    let key = d.last().0;
    let done = completed_keys(d);
    let gone = evicted(d, MAX_COMPLETED_VISIBLE as int);
    lemma_completed_keys(d);
    assert(!gone.contains(key)) by {
        if gone.contains(key) {
            let j = choose|j: int| 0 <= j < gone.len() && gone[j] == key;
            assert(done[j] == key);
            assert(done.contains(key));
            let i = choose|i: int|
                0 <= i < d.len() && (#[trigger] d[i]).0 == key && d[i].1.completed;
            assert(d[d.len() - 1].0 == key);
            assert(i == d.len() - 1);
            assert(done[done.len() - 1] == key);
        }
    }
    reveal(Seq::filter);
    assert(without_all(d, gone) == without_all(d.drop_last(), gone).push(d.last()));
}

/// A report leaves each download under its own name, once, and with a past.
pub(crate) proof fn lemma_listed(m: MonitorModel, r: ReportModel, timestamp: Seq<char>)
    requires
        m.wf(),
    ensures
        keyed(m.listed(r, timestamp)),
        distinct(m.listed(r, timestamp)),
        covers(m.measured(r), m.listed(r, timestamp)),
{
    let w = without(m.downloads, r.name);
    let d = m.listed(r, timestamp);
    let h = m.measured(r);
    lemma_without(m.downloads, r.name);
    lemma_position(m.downloads, r.name);
    assert forall|i: int| 0 <= i < w.len() implies (#[trigger] w[i]).0 != r.name by {
        lemma_present(w, r.name);
    }
    assert forall|i: int| 0 <= i < d.len() implies {
        &&& (#[trigger] d[i]).0 == d[i].1.name
        &&& d[i].1.completed == (d[i].1.percent == "100%"@)
        &&& d[i].1.completed == (d[i].1.status is Done)
    } by {
        if i < w.len() {
            assert(d[i] == w[i]);
            let p = position(m.downloads, r.name) as int;
            if present(m.downloads, r.name) {
                let i0 = if i < p { i } else { i + 1 };
                assert(w[i] == m.downloads[i0]);
            } else {
                assert(w[i] == m.downloads[i]);
            }
        }
    }
    assert forall|i: int, j: int| 0 <= i < j < d.len() implies #[trigger] d[i].0
        != #[trigger] d[j].0 by {
        assert(d[i] == w[i]);
        if j < w.len() {
            assert(d[j] == w[j]);
        }
    }
    lemma_with(m.history, r.name, sampled(past(m.history, r.name), speed_of(r.speed)));
    assert forall|k: Seq<char>| #[trigger] present(h, k) <==> present(d, k) by {
        lemma_present(d, k);
        lemma_present(w, k);
        assert(present(h, k) <==> lookup(h, k) is Some);
        if k == r.name {
            assert(d[w.len() as int].0 == k);
        } else {
            assert(lookup(w, k) == lookup(m.downloads, k));
            assert(present(w, k) == present(m.downloads, k));
            assert(present(m.history, k) <==> present(m.downloads, k));
            if present(w, k) {
                let i = choose|i: int| 0 <= i < w.len() && (#[trigger] w[i]).0 == k;
                assert(d[i].0 == k);
            }
            if present(d, k) {
                let i = choose|i: int| 0 <= i < d.len() && (#[trigger] d[i]).0 == k;
                assert(d[i] == w[i]);
            }
        }
    }
    assert(past(m.history, r.name).len() <= MAX_SAMPLES) by {
        lemma_position(m.history, r.name);
    }
    assert forall|i: int| 0 <= i < h.len() implies 0 < (#[trigger] h[i]).1.len() <= MAX_SAMPLES by {
        if m.history.contains(h[i]) {
            let j = choose|j: int| 0 <= j < m.history.len() && m.history[j] == h[i];
            assert(0 < m.history[j].1.len() <= MAX_SAMPLES);
        }
    }
}

/// Where completed downloads that are too many leave, what holds of every monitor holds.
pub(crate) proof fn lemma_pruned(m: MonitorModel)
    requires
        keyed(m.downloads),
        distinct(m.downloads),
        covers(m.history, m.downloads),
        m.global.len() <= MAX_SAMPLES,
        m.just_completed ==> m.downloads.len() > 0 && m.downloads.last().1.completed,
    ensures
        m.pruned().wf(),
{
    let d = m.downloads;
    let gone = evicted(d, MAX_COMPLETED_VISIBLE as int);
    let w = without_all(d, gone);
    let h = without_all(m.history, gone);
    lemma_without_all(d, gone);
    if d.len() > 0 {
        lemma_last_stays(d);
    }
    assert forall|i: int| 0 <= i < w.len() implies {
        &&& (#[trigger] w[i]).0 == w[i].1.name
        &&& w[i].1.completed == (w[i].1.percent == "100%"@)
        &&& w[i].1.completed == (w[i].1.status is Done)
    } by {
        let j = choose|j: int| 0 <= j < d.len() && d[j] == w[i];
        assert(d[j] == w[i]);
    }
    let done = completed_keys(d);
    if done.len() > MAX_COMPLETED_VISIBLE {
        lemma_without_first(d, done.len() - MAX_COMPLETED_VISIBLE);
    } else {
        lemma_without_none(d);
    }
    lemma_without_all(m.history, gone);
    assert forall|k: Seq<char>| #[trigger] present(h, k) <==> present(w, k) by {
        lemma_lookup_without_all(d, gone, k);
        lemma_lookup_without_all(m.history, gone, k);
        assert(present(m.history, k) <==> present(d, k));
    }
    assert forall|i: int| 0 <= i < h.len() implies 0 < (#[trigger] h[i]).1.len() <= MAX_SAMPLES by {
        let j = choose|j: int| 0 <= j < m.history.len() && m.history[j] == h[i];
        assert(0 < m.history[j].1.len() <= MAX_SAMPLES);
    }
}

} // verus!
