//! What holds of a monitor over more than one report.

use vstd::prelude::*;

use crate::chart::{DrawingModel, SeriesModel, TOP_K_CHARTS};
use crate::entry::{EntryModel, Status};
use crate::growl::Event;
use crate::message::ReportModel;
use crate::monitor::{MonitorModel, MAX_COMPLETED_VISIBLE, MAX_SAMPLES};
use crate::speed::SpeedModel;

verus! {

use crate::chart::{
    chart_parts, charted, file_on, file_part, global_on, largest_are_charted, picked, ranks_before,
    GlobalModel,
};
use crate::json::{lemma_get_is_smaller, JsonModel};
use crate::message::{innermost, next_layer};
use crate::monitor::{
    completes, entry_after, keyed, lemma_listed, lemma_pruned, line_event, newest_report_is_last,
    sampled, status_after, status_of, update_event,
};
use crate::speed::speed_of;
use crate::table::{
    active_count, active_series, active_speeds, completed_keys, distinct, evicted,
    latest_completed, lemma_completed_keys, lemma_lookup_at, lemma_lookup_without_all,
    lemma_position, lemma_present, lemma_with, lemma_without, lemma_without_all,
    lemma_without_all_push, lemma_without_first, lemma_without_none, lookup, past, position,
    present, without, without_all,
};
use crate::text::joined;

/// What holds of every monitor holds after a report, whatever it says.
pub proof fn reports_keep_monitors_whole(m: MonitorModel, r: ReportModel, timestamp: Seq<char>)
    requires
        m.wf(),
    ensures
        m.recorded(r, timestamp).wf(),
{
    lemma_listed(m, r, timestamp);
    lemma_pruned(
        MonitorModel {
            chart_height: m.chart_height,
            downloads: m.listed(r, timestamp),
            history: m.measured(r),
            global: sampled(
                m.global,
                active_speeds(m.listed(r, timestamp), m.measured(r)),
            ),
            just_completed: completes(m.get(r.name), r),
        },
    );
}

/// Where no more downloads are completed than may stay, nothing is taken out, and nothing changes:
/// so of every monitor, since those that are too many left with the report that made them so.
pub proof fn nothing_is_left_to_prune(m: MonitorModel)
    requires
        completed_keys(m.downloads).len() <= MAX_COMPLETED_VISIBLE,
    ensures
        m.pruned() == m,
{
    lemma_without_none(m.downloads);
    lemma_without_none(m.history);
    assert(evicted(m.downloads, MAX_COMPLETED_VISIBLE as int) == Seq::<Seq<char>>::empty());
}

/// The past speeds that are taken out are those of the downloads that are taken out; the others
/// stay as they are. All else stays.
pub proof fn speeds_leave_with_their_downloads(m: MonitorModel, name: Seq<char>)
    requires
        distinct(m.downloads),
        distinct(m.history),
    ensures
        ({
            let left = present(m.downloads, name) && !present(m.pruned().downloads, name);
            lookup(m.pruned().history, name) == if left {
                None
            } else {
                lookup(m.history, name)
            }
        }),
        m.pruned().global == m.global,
        m.pruned().chart_height == m.chart_height,
        m.pruned().just_completed == m.just_completed,
{
    let gone = evicted(m.downloads, MAX_COMPLETED_VISIBLE as int);
    lemma_lookup_without_all(m.downloads, gone, name);
    lemma_lookup_without_all(m.history, gone, name);
    if gone.contains(name) {
        lemma_evicted(m.downloads, MAX_COMPLETED_VISIBLE as int, name);
    }
}

/// The past speeds that stay after a report, those of the download that it is on among them, keep
/// their order.
pub proof fn reports_keep_the_order_of_speeds(
    m: MonitorModel,
    r: ReportModel,
    timestamp: Seq<char>,
    a: Seq<char>,
    b: Seq<char>,
)
    requires
        m.wf(),
        present(m.history, a),
        present(m.history, b),
        present(m.recorded(r, timestamp).history, a),
        present(m.recorded(r, timestamp).history, b),
    ensures
        position(m.recorded(r, timestamp).history, a) < position(
            m.recorded(r, timestamp).history,
            b,
        ) <==> position(m.history, a) < position(m.history, b),
{
    let d = m.listed(r, timestamp);
    let h = m.measured(r);
    lemma_listed(m, r, timestamp);
    lemma_without_all_keeps_order(h, evicted(d, MAX_COMPLETED_VISIBLE as int), a, b);
    lemma_position(m.history, a);
    lemma_position(m.history, b);
    lemma_position(m.history, r.name);
    let i = position(m.history, a) as int;
    let j = position(m.history, b) as int;
    assert(h[i].0 == a && h[j].0 == b);
    lemma_lookup_at(h, i);
    lemma_lookup_at(h, j);
}

/// Completed downloads leave oldest first: of those that there are right after a report the last
/// [`MAX_COMPLETED_VISIBLE`] stay, in their order.
pub proof fn oldest_completed_leave_first(m: MonitorModel, r: ReportModel, timestamp: Seq<char>)
    requires
        m.wf(),
    ensures
        ({
            let all = completed_keys(m.listed(r, timestamp));
            let kept = completed_keys(m.recorded(r, timestamp).downloads);
            if all.len() > MAX_COMPLETED_VISIBLE {
                kept == all.skip(all.len() - MAX_COMPLETED_VISIBLE)
            } else {
                kept == all
            }
        }),
{
    let d = m.listed(r, timestamp);
    let all = completed_keys(d);
    lemma_listed(m, r, timestamp);
    if all.len() > MAX_COMPLETED_VISIBLE {
        lemma_without_first(d, all.len() - MAX_COMPLETED_VISIBLE);
    } else {
        lemma_without_none(d);
    }
}

/// A key that is taken out is that of a completed download.
proof fn lemma_evicted(d: Seq<(Seq<char>, EntryModel)>, limit: int, key: Seq<char>)
    requires
        distinct(d),
        evicted(d, limit).contains(key),
        limit >= 0,
    ensures
        lookup(d, key) matches Some(e) && e.completed,
{
    let done = completed_keys(d);
    lemma_completed_keys(d);
    let j = choose|j: int| 0 <= j < evicted(d, limit).len() && evicted(d, limit)[j] == key;
    assert(done[j] == key);
    assert(done.contains(key));
    let i = choose|i: int| 0 <= i < d.len() && (#[trigger] d[i]).0 == key && d[i].1.completed;
    lemma_lookup_at(d, i);
}

/// A report on one download leaves each other as it was, or, where that is completed, takes it
/// out; one that is not completed never leaves.
pub proof fn reports_leave_other_downloads(
    m: MonitorModel,
    r: ReportModel,
    timestamp: Seq<char>,
    name: Seq<char>,
)
    requires
        m.wf(),
        name != r.name,
    ensures
        ({
            let after = m.recorded(r, timestamp);
            ||| after.get(name) == m.get(name)
            ||| after.get(name) is None && (m.get(name) matches Some(e) && e.completed)
        }),
{
    let d = m.listed(r, timestamp);
    let w = without(m.downloads, r.name);
    let gone = evicted(d, MAX_COMPLETED_VISIBLE as int);
    lemma_listed(m, r, timestamp);
    lemma_without(m.downloads, r.name);
    assert(lookup(d, name) == lookup(m.downloads, name)) by {
        lemma_present(d, name);
        lemma_present(w, name);
        if present(w, name) {
            let i = choose|i: int| 0 <= i < w.len() && (#[trigger] w[i]).0 == name;
            lemma_lookup_at(w, i);
            assert(d[i] == w[i]);
            lemma_lookup_at(d, i);
        } else if present(d, name) {
            let i = choose|i: int| 0 <= i < d.len() && (#[trigger] d[i]).0 == name;
            assert(d[i] == w[i]);
        }
        assert(lookup(w, name) == lookup(m.downloads, name));
    }
    lemma_lookup_without_all(d, gone, name);
    if gone.contains(name) {
        lemma_evicted(d, MAX_COMPLETED_VISIBLE as int, name);
    }
}

pub(crate) proof fn lemma_without_keeps_order<A>(
    d: Seq<(Seq<char>, A)>,
    key: Seq<char>,
    a: Seq<char>,
    b: Seq<char>,
)
    requires
        distinct(d),
        present(without(d, key), a),
        present(without(d, key), b),
    ensures
        present(d, a),
        present(d, b),
        position(without(d, key), a) < position(without(d, key), b) <==> position(d, a) < position(
            d,
            b,
        ),
{
    let w = without(d, key);
    lemma_without(d, key);
    lemma_position(d, key);
    lemma_position(w, a);
    lemma_position(w, b);
    if present(d, key) {
        let p = position(d, key) as int;
        let i = position(w, a) as int;
        let j = position(w, b) as int;
        let i0 = if i < p { i } else { i + 1 };
        let j0 = if j < p { j } else { j + 1 };
        assert(w[i] == d[i0] && w[j] == d[j0]);
        lemma_lookup_at(d, i0);
        lemma_lookup_at(d, j0);
    }
}

proof fn lemma_without_all_keeps_order<A>(
    d: Seq<(Seq<char>, A)>,
    keys: Seq<Seq<char>>,
    a: Seq<char>,
    b: Seq<char>,
)
    requires
        distinct(d),
        present(without_all(d, keys), a),
        present(without_all(d, keys), b),
    ensures
        present(d, a),
        present(d, b),
        position(without_all(d, keys), a) < position(without_all(d, keys), b) <==> position(d, a)
            < position(d, b),
    decreases keys.len(),
{
    if keys.len() == 0 {
        assert(keys == Seq::<Seq<char>>::empty());
        lemma_without_none(d);
    } else {
        let fewer = keys.drop_last();
        assert(fewer.push(keys.last()) == keys);
        lemma_without_all(d, fewer);
        lemma_without_all_push(d, fewer, keys.last());
        lemma_without_keeps_order(without_all(d, fewer), keys.last(), a, b);
        lemma_without_all_keeps_order(d, fewer, a, b);
    }
}

/// The downloads that a report is not on keep their order.
pub proof fn reports_keep_the_order_of_others(
    m: MonitorModel,
    r: ReportModel,
    timestamp: Seq<char>,
    a: Seq<char>,
    b: Seq<char>,
)
    requires
        m.wf(),
        a != r.name,
        b != r.name,
        m.recorded(r, timestamp).get(a) is Some,
        m.recorded(r, timestamp).get(b) is Some,
    ensures
        m.get(a) is Some,
        m.get(b) is Some,
        position(m.recorded(r, timestamp).downloads, a) < position(
            m.recorded(r, timestamp).downloads,
            b,
        ) <==> position(m.downloads, a) < position(m.downloads, b),
{
    let d = m.listed(r, timestamp);
    let w = without(m.downloads, r.name);
    lemma_listed(m, r, timestamp);
    lemma_without(m.downloads, r.name);
    lemma_without_all_keeps_order(d, evicted(d, MAX_COMPLETED_VISIBLE as int), a, b);
    lemma_position(d, a);
    lemma_position(d, b);
    let i = position(d, a) as int;
    let j = position(d, b) as int;
    assert(d[i] == w[i] && d[j] == w[j]);
    lemma_lookup_at(w, i);
    lemma_lookup_at(w, j);
    lemma_without_keeps_order(m.downloads, r.name, a, b);
}

/// The reported speed is the latest sample of the download; the past of a download that stays is
/// otherwise as it was, and at most as long as [`MAX_SAMPLES`].
pub proof fn reports_sample_speeds(
    m: MonitorModel,
    r: ReportModel,
    timestamp: Seq<char>,
    name: Seq<char>,
)
    requires
        m.wf(),
    ensures
        ({
            let after = m.recorded(r, timestamp);
            &&& lookup(after.history, r.name) == Some(
                sampled(past(m.history, r.name), speed_of(r.speed)),
            )
            &&& past(after.history, r.name).last() == speed_of(r.speed)
            &&& name != r.name && after.get(name) is Some ==> present(m.history, name) && lookup(
                after.history,
                name,
            ) == lookup(m.history, name)
            &&& past(after.history, name).len() <= MAX_SAMPLES
        }),
{
    let after = m.recorded(r, timestamp);
    let gone = evicted(m.listed(r, timestamp), MAX_COMPLETED_VISIBLE as int);
    lemma_listed(m, r, timestamp);
    lemma_with(m.history, r.name, sampled(past(m.history, r.name), speed_of(r.speed)));
    lemma_lookup_without_all(m.measured(r), gone, r.name);
    lemma_lookup_without_all(m.measured(r), gone, name);
    reports_keep_monitors_whole(m, r, timestamp);
    newest_report_is_last(m, r, timestamp);
    assert(present(after.history, r.name) <==> present(after.downloads, r.name));
    assert(present(after.history, name) <==> present(after.downloads, name));
    lemma_position(after.history, name);
}

/// What leaves does not count in the throughput.
proof fn lemma_active_speeds(
    d: Seq<(Seq<char>, EntryModel)>,
    h: Seq<(Seq<char>, Seq<SpeedModel>)>,
    gone: Seq<Seq<char>>,
)
    requires
        keyed(d),
        distinct(h),
        forall|i: int|
            0 <= i < d.len() && gone.contains((#[trigger] d[i]).0) ==> d[i].1.completed,
    ensures
        active_speeds(without_all(d, gone), without_all(h, gone)) == active_speeds(d, h),
    decreases d.len(),
{
    reveal(Seq::filter);
    if d.len() > 0 {
        let d0 = d.drop_last();
        let p = d.last();
        assert forall|i: int| 0 <= i < d0.len() implies #[trigger] d0[i] == d[i] by {}
        assert(keyed(d0));
        assert forall|i: int| 0 <= i < d0.len() && gone.contains(
            (#[trigger] d0[i]).0,
        ) implies d0[i].1.completed by {
            assert(d0[i] == d[i]);
        }
        lemma_active_speeds(d0, h, gone);
        let w0 = without_all(d0, gone);
        assert(d[d.len() - 1] == p);
        if !gone.contains(p.0) {
            assert(without_all(d, gone) == w0.push(p));
            assert(w0.push(p).drop_last() == w0);
            lemma_lookup_without_all(h, gone, p.1.name);
        }
    }
}

/// The latest throughput is the sum over the downloads that are shown: what leaves with a report
/// does not change it.
pub proof fn latest_throughput_is_of_the_table(
    m: MonitorModel,
    r: ReportModel,
    timestamp: Seq<char>,
)
    requires
        m.wf(),
    ensures
        ({
            let after = m.recorded(r, timestamp);
            &&& after.global.len() > 0
            &&& after.global.last() == active_speeds(after.downloads, after.history)
        }),
{
    let d = m.listed(r, timestamp);
    let gone = evicted(d, MAX_COMPLETED_VISIBLE as int);
    lemma_listed(m, r, timestamp);
    assert forall|i: int| 0 <= i < d.len() && gone.contains(
        (#[trigger] d[i]).0,
    ) implies d[i].1.completed by {
        lemma_evicted(d, MAX_COMPLETED_VISIBLE as int, d[i].0);
        lemma_lookup_at(d, i);
    }
    lemma_active_speeds(d, m.measured(r), gone);
}

/// A download that reports the same speed and percentage twice in a row, and is not done, has
/// stopped; where either changes it runs.
pub proof fn unchanged_reports_stop(
    m: MonitorModel,
    r: ReportModel,
    timestamp: Seq<char>,
    next: ReportModel,
)
    requires
        m.wf(),
        next.name == r.name,
        r.percent != "100%"@,
        next.percent != "100%"@,
    ensures
        ({
            let e = m.recorded(r, timestamp).get(r.name);
            if next.speed == r.speed && next.percent == r.percent {
                status_after(e, next) is Stop
            } else {
                status_after(e, next) is Run
            }
        }),
{
    newest_report_is_last(m, r, timestamp);
}

/// A download that a report completes is the one that was just completed, under its name and with
/// its size; where a report completes none, none was, and so where no report was made.
pub proof fn completion_is_last_completed(
    m: MonitorModel,
    r: ReportModel,
    timestamp: Seq<char>,
)
    requires
        m.wf(),
    ensures
        ({
            let last = m.recorded(r, timestamp).last_completed();
            if completes(m.get(r.name), r) {
                &&& last == Some(entry_after(m.get(r.name), r, timestamp))
                &&& last->0.name == r.name
                &&& last->0.size == r.size
            } else {
                last is None
            }
        }),
        m.unmoved().last_completed() is None,
{
    newest_report_is_last(m, r, timestamp);
}

/// A download that is done stands as the completed one that was reported last, also where it was
/// done before.
pub proof fn done_is_newest_completed(m: MonitorModel, r: ReportModel, timestamp: Seq<char>)
    requires
        m.wf(),
        r.percent == "100%"@,
    ensures
        latest_completed(m.recorded(r, timestamp).downloads) == Some(
            entry_after(m.get(r.name), r, timestamp),
        ),
{
    newest_report_is_last(m, r, timestamp);
}

/// What is announced as complete is what was just completed.
pub proof fn announced_completion_is_last_completed(
    m: MonitorModel,
    r: ReportModel,
    timestamp: Seq<char>,
)
    requires
        m.wf(),
    ensures
        ({
            let before = m.get(r.name);
            line_event(status_of(before), status_after(before, r)) == Some(Event::Complete)
                <==> m.recorded(r, timestamp).last_completed() is Some
        }),
{
    completion_is_last_completed(m, r, timestamp);
    lemma_position(m.downloads, r.name);
}

/// What holds of every monitor holds after something was read that makes no report; the downloads
/// and their speeds stay as they were.
pub proof fn other_lines_leave_the_downloads(m: MonitorModel)
    requires
        m.wf(),
    ensures
        m.unmoved().wf(),
        m.unmoved().downloads == m.downloads,
        m.unmoved().history == m.history,
        m.unmoved().global == m.global,
        m.unmoved().chart_height == m.chart_height,
{
}

/// The change that a report tells is the one that is announced, but for a download that is done
/// in the first report on it: that is announced, and the report alone tells no change.
pub proof fn announced_changes_are_the_reported_ones(
    m: MonitorModel,
    r: ReportModel,
)
    requires
        m.wf(),
    ensures
        ({
            let before = m.get(r.name);
            let after = status_after(before, r);
            let reported = update_event(status_of(before), after);
            let announced = line_event(status_of(before), after);
            if before is None && after is Done {
                reported is None && announced == Some(Event::Complete)
            } else {
                reported == announced
            }
        }),
{
    lemma_position(m.downloads, r.name);
}

/// A completion is announced once: the report that completes a download announces it, one that
/// finds it completed announces nothing.
pub proof fn completion_is_announced_once(
    m: MonitorModel,
    r: ReportModel,
    timestamp: Seq<char>,
    next: ReportModel,
)
    requires
        m.wf(),
        next.name == r.name,
        r.percent == "100%"@,
        next.percent == "100%"@,
    ensures
        ({
            let before = m.get(r.name);
            let between = m.recorded(r, timestamp).get(r.name);
            &&& line_event(status_of(before), status_after(before, r)) == if before
                matches Some(e) && e.completed {
                None
            } else {
                Some(Event::Complete)
            }
            &&& line_event(status_of(between), status_after(between, next)) is None
        }),
{
    newest_report_is_last(m, r, timestamp);
    lemma_position(m.downloads, r.name);
}

/// A stop is announced once, and so is the start after it.
pub proof fn stops_and_starts_alternate(before: Option<Status>, after: Status)
    ensures
        line_event(before, after) == Some(Event::Stopped) ==> before == Some(Status::Run) && after
            == Status::Stop,
        line_event(before, after) == Some(Event::Started) ==> before != Some(Status::Run) && after
            == Status::Run,
        before == Some(after) ==> line_event(before, after) is None,
{
}

/// An object that holds a message as its own `message` reads as that message; and so does one
/// that holds it as a text, which is longer than what it says.
pub proof fn wrapping_does_not_matter(wrapper: JsonModel, v: JsonModel)
    ensures
        wrapper.get("message"@) == Some(v) && v is Object ==> innermost(wrapper) == innermost(v),
        next_layer(wrapper) == Some(v) && v.size() < wrapper.size() ==> innermost(wrapper)
            == innermost(v),
{
    lemma_get_is_smaller(wrapper, "message"@);
}

/// Unwrapping what is unwrapped changes nothing.
pub proof fn unwrapping_twice_is_unwrapping(v: JsonModel)
    ensures
        innermost(innermost(v)) == innermost(v),
    decreases v.size(),
{
    if let Some(w) = next_layer(v) {
        if w.size() < v.size() {
            unwrapping_twice_is_unwrapping(w);
        }
    }
}

/// Of a monitor each download that is not completed has a series, and each series is of one.
proof fn lemma_active_series(
    d: Seq<(Seq<char>, EntryModel)>,
    h: Seq<(Seq<char>, Seq<SpeedModel>)>,
)
    requires
        forall|i: int| 0 <= i < d.len() ==> past(h, (#[trigger] d[i]).1.name).len() > 0,
    ensures
        active_series(d, h).len() == active_count(d),
        forall|j: int|
            0 <= j < active_series(d, h).len() ==> is_active(
                d,
                (#[trigger] active_series(d, h)[j]).0,
            ),
    decreases d.len(),
{
    if d.len() > 0 {
        let d0 = d.drop_last();
        assert forall|i: int| 0 <= i < d0.len() implies past(h, (#[trigger] d0[i]).1.name).len()
            > 0 by {
            assert(d0[i] == d[i]);
        }
        assert(d[d.len() - 1] == d.last());
        lemma_active_series(d0, h);
        let s = active_series(d, h);
        let s0 = active_series(d0, h);
        assert forall|j: int| 0 <= j < s.len() implies is_active(d, (#[trigger] s[j]).0) by {
            if j < s0.len() {
                assert(s[j] == s0[j]);
                let i = choose|i: int|
                    0 <= i < d0.len() && (#[trigger] d0[i]).1.name == s0[j].0
                        && !d0[i].1.completed;
                assert(d[i] == d0[i]);
            }
        }
    }
}

/// Tells whether `d` holds a download with the name `name` that is not completed.
pub open spec fn is_active(d: Seq<(Seq<char>, EntryModel)>, name: Seq<char>) -> bool {
    exists|i: int| 0 <= i < d.len() && (#[trigger] d[i]).1.name == name && !d[i].1.completed
}

/// The text of the charts has a section of file speeds where a download is not completed, and only
/// there. It lists as many such downloads as may be charted, or all; the one with the largest key
/// comes first, of equal keys the one that comes first in the table, and none that is not listed
/// has a larger key.
pub proof fn fastest_downloads_are_charted(
    m: MonitorModel,
    term_cols: u16,
    unit: Seq<char>,
    max: Seq<char>,
    drawn: Option<Seq<char>>,
    recent: Seq<Seq<char>>,
    keys: Seq<u64>,
    drawings: Seq<DrawingModel>,
)
    requires
        m.wf(),
        keys.len() == active_series(m.downloads, m.history).len(),
        keys.len() <= usize::MAX,
    ensures
        keys.len() == active_count(m.downloads),
        ({
            let series = active_series(m.downloads, m.history);
            let order = charted(keys);
            let global = GlobalModel { len: m.global.len() as int, drawn, recent };
            let files = picked(m.drawn(drawings), order).map_values(
                |s: SeriesModel| file_on(term_cols, s),
            );
            let parts = chart_parts(unit, max, global_on(term_cols, global), files);
            &&& m.chart_text(term_cols, unit, max, drawn, recent, keys, drawings) == joined(
                parts,
                "\n\n"@,
            )
            &&& order.len() == if keys.len() < TOP_K_CHARTS {
                keys.len()
            } else {
                TOP_K_CHARTS as nat
            }
            &&& parts.len() == if keys.len() == 0 {
                2
            } else {
                3 + order.len()
            }
            &&& keys.len() > 0 ==> parts[2] == "\nTop file speeds ("@ + unit + "/s)"@
            &&& forall|i: int|
                0 <= i < order.len() ==> {
                    let s = series[#[trigger] order[i] as int];
                    &&& order[i] < keys.len()
                    &&& files[i].name == s.0
                    &&& parts[3 + i] == file_part(files[i])
                    &&& m.get(s.0) matches Some(e) && !e.completed
                    &&& past(m.history, s.0) == s.1
                }
            &&& forall|i: int, j: int|
                0 <= i < j < order.len() ==> ranks_before(
                    keys,
                    #[trigger] order[i] as int,
                    #[trigger] order[j] as int,
                )
            &&& forall|i: int, k: usize|
                0 <= i < order.len() && k < keys.len() && !order.contains(k)
                    ==> #[trigger] ranks_before(keys, order[i] as int, k as int)
        }),
{
    let d = m.downloads;
    let h = m.history;
    let series = active_series(d, h);
    let order = charted(keys);
    largest_are_charted(keys);
    assert forall|i: int| 0 <= i < d.len() implies past(h, (#[trigger] d[i]).1.name).len() > 0 by {
        lemma_lookup_at(d, i);
        assert(present(h, d[i].0) <==> present(d, d[i].0));
        lemma_position(h, d[i].0);
    }
    lemma_active_series(d, h);
    let files = picked(m.drawn(drawings), order).map_values(
        |s: SeriesModel| file_on(term_cols, s),
    );
    let global = GlobalModel { len: m.global.len() as int, drawn, recent };
    let parts = chart_parts(unit, max, global_on(term_cols, global), files);
    assert forall|i: int| 0 <= i < order.len() implies {
        let s = series[#[trigger] order[i] as int];
        &&& order[i] < keys.len()
        &&& files[i].name == s.0
        &&& parts[3 + i] == file_part(files[i])
        &&& m.get(s.0) matches Some(e) && !e.completed
        &&& past(m.history, s.0) == s.1
    } by {
        let k = order[i] as int;
        assert(is_active(d, series[k].0));
        let x = choose|x: int|
            0 <= x < d.len() && (#[trigger] d[x]).1.name == series[k].0 && !d[x].1.completed;
        lemma_lookup_at(d, x);
        lemma_series_is_past(d, h, k);
    }
}

/// A series is the past under its name.
proof fn lemma_series_is_past(
    d: Seq<(Seq<char>, EntryModel)>,
    h: Seq<(Seq<char>, Seq<SpeedModel>)>,
    j: int,
)
    requires
        0 <= j < active_series(d, h).len(),
    ensures
        active_series(d, h)[j].1 == past(h, active_series(d, h)[j].0),
    decreases d.len(),
{
    if d.len() > 0 && j < active_series(d.drop_last(), h).len() {
        lemma_series_is_past(d.drop_last(), h, j);
    }
}

} // verus!
