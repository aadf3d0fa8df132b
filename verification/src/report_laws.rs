//! What a report does to a monitor, told by what stood there before and what stands there after.

use vstd::prelude::*;

use crate::clock::Reading;
use crate::entry::{EntryModel, Status};
use crate::growl::{AlertModel, Event};
use crate::message::{MessageModel, ReportModel};
use crate::monitor::MonitorModel;
use crate::speed::SpeedModel;

verus! {

use crate::clock::{stamps_tell_their_second, text_at};
use crate::laws::{
    latest_throughput_is_of_the_table, lemma_without_keeps_order, oldest_completed_leave_first,
    reports_keep_monitors_whole, reports_leave_other_downloads, reports_sample_speeds,
};
use crate::message::titled_report;
use crate::monitor::{
    alert_on, lemma_listed, newest_report_is_last, stamped_as_read, status_after, status_of,
    titled_alert,
    update_event,
};
use crate::speed::speed_of;
use crate::table::{
    active_count, active_series, active_speeds, completed_keys, distinct, evicted,
    latest_completed, lemma_completed_keys, lemma_lookup_at, lemma_lookup_without_all,
    lemma_position, lemma_present, lemma_without, lookup, past, position, present, without,
};

/// A report is kept as it was made: name, percentage, size, speed and times as reported, at the
/// time of the report; completed where it says `100%`, and only there.
pub proof fn reports_are_kept_as_made(m: MonitorModel, r: ReportModel, timestamp: Seq<char>)
    requires
        m.wf(),
    ensures
        m.recorded(r, timestamp).get(r.name) matches Some(e) && {
            &&& e.name == r.name
            &&& e.percent == r.percent
            &&& e.size == r.size
            &&& e.speed == r.speed
            &&& e.eta == r.eta
            &&& e.total_duration == r.total_duration
            &&& e.timestamp == timestamp
            &&& e.completed <==> r.percent == "100%"@
        },
{
    newest_report_is_last(m, r, timestamp);
}

/// A download that the monitor does not hold runs with its first report, whatever that says, unless
/// it says `100%`: then it is done.
pub proof fn first_report_runs(m: MonitorModel, r: ReportModel, timestamp: Seq<char>)
    requires
        m.wf(),
        m.get(r.name) is None,
    ensures
        m.recorded(r, timestamp).get(r.name) matches Some(e) && e.status == (if r.percent
            == "100%"@ {
            Status::Done
        } else {
            Status::Run
        }),
{
    newest_report_is_last(m, r, timestamp);
}

/// The first report on a download is announced: that it has started, or, where it says `100%`, that
/// it is complete; with the name and the size that were reported.
pub proof fn first_report_is_announced(m: MonitorModel, message: MessageModel)
    requires
        m.wf(),
        m.get(titled_report(message).name) is None,
    ensures
        titled_alert(m, message) == Some(
            AlertModel {
                event: if titled_report(message).percent == "100%"@ {
                    Event::Complete
                } else {
                    Event::Started
                },
                name: titled_report(message).name,
                size: titled_report(message).size,
            },
        ),
{
}

/// A further report on a download: at `100%` it is done; where it is not, was not completed and
/// reports the speed and percentage that it reported before, it has stopped; else it runs.
pub proof fn further_report_sets_status(
    m: MonitorModel,
    r: ReportModel,
    timestamp: Seq<char>,
    before: EntryModel,
)
    requires
        m.wf(),
        m.get(r.name) == Some(before),
    ensures
        m.recorded(r, timestamp).get(r.name) matches Some(e) && {
            &&& e.status is Done <==> r.percent == "100%"@
            &&& e.status is Stop <==> r.percent != "100%"@ && r.percent == before.percent && r.speed
                == before.speed
            &&& e.status is Run <==> r.percent != "100%"@ && (r.percent != before.percent
                || r.speed != before.speed)
        },
{
    newest_report_is_last(m, r, timestamp);
    lemma_position(m.downloads, r.name);
}

/// What a further report announces: that a download is complete, where it was not; that it has
/// stopped, where it ran; that it has started, where it had stopped and now does not; and nothing
/// else. The name and the size are the reported ones.
pub proof fn further_report_is_announced(
    m: MonitorModel,
    message: MessageModel,
    before: EntryModel,
)
    requires
        m.wf(),
        m.get(titled_report(message).name) == Some(before),
    ensures
        ({
            let r = titled_report(message);
            let same = r.percent == before.percent && r.speed == before.speed;
            let event = if r.percent == "100%"@ {
                if before.percent == "100%"@ {
                    None
                } else {
                    Some(Event::Complete)
                }
            } else if same && before.status is Run {
                Some(Event::Stopped)
            } else if !same && before.status is Stop {
                Some(Event::Started)
            } else {
                None
            };
            titled_alert(m, message) == match event {
                Some(event) => Some(AlertModel { event, name: r.name, size: r.size }),
                None => None,
            }
        }),
{
    lemma_position(m.downloads, titled_report(message).name);
}

/// What recording a report tells: of a new download that it has started, unless it is done; else
/// that it is complete, where it was not, that it has stopped, where it ran, and that it has
/// started, where it had stopped and now does not. The name and the size are the reported ones.
pub proof fn recording_tells_the_change(m: MonitorModel, r: ReportModel)
    requires
        m.wf(),
    ensures
        ({
            let before = m.get(r.name);
            let told = alert_on(
                update_event(status_of(before), status_after(before, r)),
                r.name,
                r.size,
            );
            let done = r.percent == "100%"@;
            let event = match before {
                None => if done {
                    None
                } else {
                    Some(Event::Started)
                },
                Some(e) => {
                    let same = r.percent == e.percent && r.speed == e.speed;
                    if done && e.percent != "100%"@ {
                        Some(Event::Complete)
                    } else if !done && same && e.status is Run {
                        Some(Event::Stopped)
                    } else if !done && !same && e.status is Stop {
                        Some(Event::Started)
                    } else {
                        None
                    }
                },
            };
            told == match event {
                Some(event) => Some(AlertModel { event, name: r.name, size: r.size }),
                None => None,
            }
        }),
{
    lemma_position(m.downloads, r.name);
}

/// A report adds one sample to the past of its download, the newest last; of what was there before
/// the last 399 stay at most, unchanged and in their order.
pub proof fn one_sample_is_added(m: MonitorModel, r: ReportModel, timestamp: Seq<char>)
    requires
        m.wf(),
    ensures
        ({
            let before = past(m.history, r.name);
            let after = past(m.recorded(r, timestamp).history, r.name);
            &&& after.len() == if before.len() < 400 {
                before.len() + 1
            } else {
                400
            }
            &&& after.last() == speed_of(r.speed)
            &&& forall|i: int|
                1 <= i < after.len() ==> #[trigger] after[after.len() - 1 - i]
                    == before[before.len() - i]
        }),
{
    reports_sample_speeds(m, r, timestamp, r.name);
    let before = past(m.history, r.name);
    lemma_position(m.history, r.name);
}

/// A report adds one throughput, the newest last: the latest speed of each download that is not
/// completed, its own among them, each once. Of the throughputs before the last 399 stay at most,
/// unchanged and in their order.
pub proof fn one_throughput_is_added(m: MonitorModel, r: ReportModel, timestamp: Seq<char>)
    requires
        m.wf(),
    ensures
        ({
            let before = m.global;
            let after = m.recorded(r, timestamp);
            let active = after.downloads.filter(|p: (Seq<char>, EntryModel)| !p.1.completed);
            &&& after.global.len() == if before.len() < 400 {
                before.len() + 1
            } else {
                400
            }
            &&& after.global.last() == active.map_values(
                |p: (Seq<char>, EntryModel)| past(after.history, p.0).last(),
            )
            &&& forall|i: int|
                1 <= i < after.global.len() ==> #[trigger] after.global[after.global.len() - 1 - i]
                    == before[before.len() - i]
        }),
{
    let after = m.recorded(r, timestamp);
    reports_keep_monitors_whole(m, r, timestamp);
    latest_throughput_is_of_the_table(m, r, timestamp);
    monitors_show_all_that_is_active(after);
}

/// Of a monitor each download that is not completed has a series, its past, and no other has one;
/// they stand in the order of the downloads. So do the latest speeds, and so many are active.
pub proof fn monitors_show_all_that_is_active(m: MonitorModel)
    requires
        m.wf(),
    ensures
        ({
            let active = m.downloads.filter(|p: (Seq<char>, EntryModel)| !p.1.completed);
            &&& active_count(m.downloads) == active.len()
            &&& active_series(m.downloads, m.history) == active.map_values(
                |p: (Seq<char>, EntryModel)| (p.0, past(m.history, p.0)),
            )
            &&& active_speeds(m.downloads, m.history) == active.map_values(
                |p: (Seq<char>, EntryModel)| past(m.history, p.0).last(),
            )
        }),
{
    let d = m.downloads;
    let h = m.history;
    assert forall|i: int| 0 <= i < d.len() implies past(h, (#[trigger] d[i]).0).len() > 0 && d[i].0
        == d[i].1.name by {
        lemma_lookup_at(d, i);
        assert(present(h, d[i].0) <==> present(d, d[i].0));
        lemma_position(h, d[i].0);
    }
    lemma_active(d, h);
}

proof fn lemma_active(d: Seq<(Seq<char>, EntryModel)>, h: Seq<(Seq<char>, Seq<SpeedModel>)>)
    requires
        forall|i: int|
            0 <= i < d.len() ==> past(h, (#[trigger] d[i]).0).len() > 0 && d[i].0 == d[i].1.name,
    ensures
        ({
            let active = d.filter(|p: (Seq<char>, EntryModel)| !p.1.completed);
            &&& active_count(d) == active.len()
            &&& active_series(d, h) == active.map_values(
                |p: (Seq<char>, EntryModel)| (p.0, past(h, p.0)),
            )
            &&& active_speeds(d, h) == active.map_values(
                |p: (Seq<char>, EntryModel)| past(h, p.0).last(),
            )
        }),
    decreases d.len(),
{
    reveal(Seq::filter);
    let keep = |p: (Seq<char>, EntryModel)| !p.1.completed;
    let f = |p: (Seq<char>, EntryModel)| (p.0, past(h, p.0));
    let g = |p: (Seq<char>, EntryModel)| past(h, p.0).last();
    if d.len() > 0 {
        let d0 = d.drop_last();
        assert forall|i: int| 0 <= i < d0.len() implies past(h, (#[trigger] d0[i]).0).len() > 0
            && d0[i].0 == d0[i].1.name by {
            assert(d0[i] == d[i]);
        }
        lemma_active(d0, h);
        let a0 = d0.filter(keep);
        let p = d.last();
        assert(d[d.len() - 1] == p);
        assert(a0.push(p).map_values(f) == a0.map_values(f).push(f(p)));
        assert(a0.push(p).map_values(g) == a0.map_values(g).push(g(p)));
    } else {
        assert(d.filter(keep).map_values(f) == Seq::<(Seq<char>, Seq<SpeedModel>)>::empty());
        assert(d.filter(keep).map_values(g) == Seq::<SpeedModel>::empty());
    }
}

/// The completed keys are those of the completed downloads, in the order of the downloads; the
/// latest completed download is the last of them.
pub proof fn completed_keys_are_of_completed_downloads(d: Seq<(Seq<char>, EntryModel)>)
    ensures
        ({
            let done = d.filter(|p: (Seq<char>, EntryModel)| p.1.completed);
            &&& completed_keys(d) == done.map_values(|p: (Seq<char>, EntryModel)| p.0)
            &&& latest_completed(d) == if done.len() > 0 {
                Some(done.last().1)
            } else {
                None
            }
        }),
    decreases d.len(),
{
    reveal(Seq::filter);
    let keep = |p: (Seq<char>, EntryModel)| p.1.completed;
    let f = |p: (Seq<char>, EntryModel)| p.0;
    if d.len() > 0 {
        let d0 = d.drop_last();
        completed_keys_are_of_completed_downloads(d0);
        assert(d0.filter(keep).push(d.last()).map_values(f) == d0.filter(keep).map_values(f).push(
            f(d.last()),
        ));
    } else {
        assert(d.filter(keep).map_values(f) == Seq::<Seq<char>>::empty());
    }
}

/// At most five completed downloads stay. One leaves only where it was completed, five others stay,
/// and the report completes one.
pub proof fn five_completed_stay(
    m: MonitorModel,
    r: ReportModel,
    timestamp: Seq<char>,
    gone: Seq<char>,
)
    requires
        m.wf(),
        gone != r.name,
        m.get(gone) is Some,
        m.recorded(r, timestamp).get(gone) is None,
    ensures
        completed_keys(m.recorded(r, timestamp).downloads).len() == 5,
        m.get(gone)->0.completed,
        r.percent == "100%"@,
{
    let d = m.listed(r, timestamp);
    let out = evicted(d, 5);
    lemma_listed(m, r, timestamp);
    reports_leave_other_downloads(m, r, timestamp, gone);
    oldest_completed_leave_first(m, r, timestamp);
    lemma_in_list(m, r, timestamp, gone);
    lemma_lookup_without_all(d, out, gone);
    assert(out.contains(gone));
    if r.percent != "100%"@ {
        lemma_completed_of_list(m, r, timestamp);
    }
}

/// A completed download that leaves stood before each other completed download that stays.
pub proof fn oldest_of_the_completed_leave(
    m: MonitorModel,
    r: ReportModel,
    timestamp: Seq<char>,
    gone: Seq<char>,
    kept: Seq<char>,
)
    requires
        m.wf(),
        gone != r.name,
        m.get(gone) is Some,
        m.recorded(r, timestamp).get(gone) is None,
        kept != r.name,
        m.recorded(r, timestamp).get(kept) matches Some(e) && e.completed,
    ensures
        position(m.downloads, gone) < position(m.downloads, kept),
{
    let d = m.listed(r, timestamp);
    let w = without(m.downloads, r.name);
    let out = evicted(d, 5);
    lemma_listed(m, r, timestamp);
    lemma_without(m.downloads, r.name);
    lemma_in_list(m, r, timestamp, gone);
    lemma_in_list(m, r, timestamp, kept);
    lemma_lookup_without_all(d, out, gone);
    lemma_lookup_without_all(d, out, kept);
    lemma_left_before(d, gone, kept);
    let x = position(d, gone) as int;
    let y = position(d, kept) as int;
    lemma_position(d, gone);
    lemma_position(d, kept);
    assert(d[x] == w[x] && d[y] == w[y]);
    lemma_lookup_at(w, x);
    lemma_lookup_at(w, y);
    lemma_without_keeps_order(m.downloads, r.name, gone, kept);
}

/// What leaves a list stands before what is completed and stays.
proof fn lemma_left_before(d: Seq<(Seq<char>, EntryModel)>, gone: Seq<char>, kept: Seq<char>)
    requires
        distinct(d),
        evicted(d, 5).contains(gone),
        !evicted(d, 5).contains(kept),
        lookup(d, kept) matches Some(e) && e.completed,
    ensures
        position(d, gone) < position(d, kept),
{
    let all = completed_keys(d);
    let out = evicted(d, 5);
    lemma_completed_keys(d);
    let a = choose|a: int| 0 <= a < out.len() && out[a] == gone;
    assert(all[a] == gone);
    lemma_position(d, kept);
    assert(all.contains(d[position(d, kept) as int].0));
    let b = choose|b: int| 0 <= b < all.len() && all[b] == kept;
    if b < out.len() {
        assert(out[b] == kept);
    }
    lemma_completed_order(d, a, b);
}

/// Another download stands in the list as it stood in the monitor.
proof fn lemma_in_list(m: MonitorModel, r: ReportModel, timestamp: Seq<char>, name: Seq<char>)
    requires
        m.wf(),
        name != r.name,
    ensures
        lookup(m.listed(r, timestamp), name) == m.get(name),
{
    let d = m.listed(r, timestamp);
    let w = without(m.downloads, r.name);
    lemma_listed(m, r, timestamp);
    lemma_without(m.downloads, r.name);
    lemma_present(d, name);
    lemma_present(w, name);
    assert(lookup(w, name) == lookup(m.downloads, name));
    if present(w, name) {
        let i = choose|i: int| 0 <= i < w.len() && (#[trigger] w[i]).0 == name;
        lemma_lookup_at(w, i);
        assert(d[i] == w[i]);
        lemma_lookup_at(d, i);
    } else if present(d, name) {
        let i = choose|i: int| 0 <= i < d.len() && (#[trigger] d[i]).0 == name;
        assert(d[i] == w[i]);
    }
}

/// A report that is not at `100%` makes no more downloads completed.
proof fn lemma_completed_of_list(m: MonitorModel, r: ReportModel, timestamp: Seq<char>)
    requires
        m.wf(),
        r.percent != "100%"@,
    ensures
        completed_keys(m.listed(r, timestamp)).len() <= 5,
{
    let w = without(m.downloads, r.name);
    let d = m.listed(r, timestamp);
    assert(d.drop_last() == w);
    if present(m.downloads, r.name) {
        lemma_completed_remove(m.downloads, position(m.downloads, r.name) as int);
    }
}

proof fn lemma_completed_remove(d: Seq<(Seq<char>, EntryModel)>, i: int)
    requires
        0 <= i < d.len(),
    ensures
        completed_keys(d.remove(i)).len() <= completed_keys(d).len(),
    decreases d.len(),
{
    if i == d.len() - 1 {
        assert(d.remove(i) == d.drop_last());
    } else {
        assert(d.remove(i).drop_last() == d.drop_last().remove(i));
        assert(d.remove(i).last() == d.last());
        lemma_completed_remove(d.drop_last(), i);
    }
}

/// Completed keys stand in the order of the downloads.
proof fn lemma_completed_order(d: Seq<(Seq<char>, EntryModel)>, a: int, b: int)
    requires
        distinct(d),
        0 <= a < b < completed_keys(d).len(),
    ensures
        position(d, completed_keys(d)[a]) < position(d, completed_keys(d)[b]),
    decreases d.len(),
{
    let c = completed_keys(d);
    let d0 = d.drop_last();
    let c0 = completed_keys(d0);
    assert forall|i: int, j: int| 0 <= i < j < d0.len() implies #[trigger] d0[i].0
        != #[trigger] d0[j].0 by {
        assert(d0[i] == d[i] && d0[j] == d[j]);
    }
    lemma_completed_keys(d0);
    assert(c0.contains(c0[a]));
    let i = choose|i: int| 0 <= i < d0.len() && (#[trigger] d0[i]).0 == c0[a] && d0[i].1.completed;
    assert(d[i] == d0[i]);
    lemma_lookup_at(d, i);
    lemma_lookup_at(d0, i);
    if b < c0.len() {
        lemma_completed_order(d0, a, b);
        assert(c0.contains(c0[b]));
        let j = choose|j: int|
            0 <= j < d0.len() && (#[trigger] d0[j]).0 == c0[b] && d0[j].1.completed;
        assert(d[j] == d0[j]);
        lemma_lookup_at(d, j);
        lemma_lookup_at(d0, j);
    } else {
        assert(d[d.len() - 1].0 == c[b]);
        lemma_lookup_at(d, d.len() - 1);
    }
}

/// A report on a message without a time has the time of a reading of the machine's clock that was
/// made for it: the second that the clock then showed, and no earlier reading serves. One on a
/// message with a time has that time.
pub proof fn untimed_reports_are_of_the_clock(
    time: Option<i64>,
    last: Option<Reading>,
    now: Option<Reading>,
    e: EntryModel,
)
    requires
        stamped_as_read(time, last, now, Some(e)),
    ensures
        time is None ==> {
            &&& now matches Some(n)
            &&& last matches Some(l) ==> n@.number != l@.number
            &&& n@.elapsed matches Some(secs) ==> secs <= 8_210_266_876_799 ==> exists|offset: i32|
                -86_400 < offset < 86_400 && e.timestamp == #[trigger] text_at(
                    secs as i64,
                    offset,
                    "%Y-%m-%d %H:%M:%S"@,
                )
        },
        time matches Some(secs) ==> -8_334_601_228_800 <= secs <= 8_210_266_876_799
            ==> exists|offset: i32|
            -86_400 < offset < 86_400 && e.timestamp == #[trigger] text_at(
                secs,
                offset,
                "%Y-%m-%d %H:%M:%S"@,
            ),
{
    match time {
        Some(secs) => {
            if -8_334_601_228_800 <= secs <= 8_210_266_876_799 {
                stamps_tell_their_second(e.timestamp, secs);
            }
        },
        None => {
            if let Some(secs) = now->0@.elapsed {
                if secs <= 8_210_266_876_799 {
                    stamps_tell_their_second(e.timestamp, secs as i64);
                }
            }
        },
    }
}

/// A report completes a download where it says `100%` and the report before did not, or there was
/// none; that download, with the name and size of the report, is then the one that was just
/// completed, and else none is.
pub proof fn completed_is_what_reaches_the_end(
    m: MonitorModel,
    r: ReportModel,
    timestamp: Seq<char>,
)
    requires
        m.wf(),
    ensures
        ({
            let last = m.recorded(r, timestamp).last_completed();
            let reached = r.percent == "100%"@ && !(m.get(r.name) matches Some(e) && e.percent
                == "100%"@);
            &&& last is Some <==> reached
            &&& last matches Some(e) ==> e.name == r.name && e.size == r.size && e.timestamp
                == timestamp
        }),
{
    newest_report_is_last(m, r, timestamp);
    lemma_position(m.downloads, r.name);
}

} // verus!
