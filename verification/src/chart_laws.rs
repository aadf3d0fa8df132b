//! What the text of the charts says, for every number of samples, columns and downloads.

use vstd::prelude::*;

use crate::chart::{DrawingModel, SeriesModel};
use crate::monitor::MonitorModel;

verus! {

use crate::chart::{
    chart_parts, charted, file_cols, file_on, file_part, global_cols, global_on, global_part,
    global_title, is_showable, largest_are_charted, picked, ranks_before, shortened, text_on,
    GlobalModel,
};
use crate::table::active_series;
use crate::text::joined;
use crate::text_laws::joined_texts_keep_their_order;
use vstd::utf8::{
    encode_scalar, encode_utf8, encode_utf8_decode_utf8, encode_utf8_first_scalar,
    encode_utf8_valid_utf8, is_char_boundary, pop_first_scalar,
};

/// The throughput's chart leaves 18 columns free and a download's 16, but each has at least ten.
pub proof fn charts_are_as_wide_as_fits(term_cols: u16)
    ensures
        term_cols >= 28 ==> global_cols(term_cols) == term_cols - 18,
        term_cols < 28 ==> global_cols(term_cols) == 10,
        term_cols >= 26 ==> file_cols(term_cols) == term_cols - 16,
        term_cols < 26 ==> file_cols(term_cols) == 10,
{
}

/// The text begins with the title and the throughput's chart. With two or more throughputs that is
/// the drawn chart, however many they are and however many columns there are, or, where none was
/// drawn, the latest throughputs; with fewer it is the notice that they are being collected.
/// Without downloads to chart nothing follows.
pub proof fn throughput_is_charted(
    term_cols: u16,
    unit: Seq<char>,
    max: Seq<char>,
    g: GlobalModel,
    files: Seq<SeriesModel>,
)
    requires
        g.len >= 0,
    ensures
        ({
            let text = text_on(term_cols, unit, max, g, files);
            let chart = if g.len < 2 {
                "  Collecting metrics tracking telemetry sequences..."@
            } else {
                match g.drawn {
                    Some(c) => c,
                    None => joined(g.recent, ", "@),
                }
            };
            let head = "Global throughput ("@ + unit + "/s)  max "@ + max + "/s"@ + "\n\n"@ + chart;
            &&& files.len() == 0 ==> text == head
            &&& head.len() <= text.len()
            &&& text.take(head.len() as int) == head
        }),
    decreases files.len(),
{
    let text = text_on(term_cols, unit, max, g, files);
    let title = global_title(unit, max);
    let chart = global_part(global_on(term_cols, g));
    if files.len() == 0 {
        let parts = seq![title, chart];
        joined_texts_keep_their_order(title, seq![chart], "\n\n"@);
        joined_texts_keep_their_order(chart, seq![chart], "\n\n"@);
        assert(seq![title] + seq![chart] == parts);
        assert(files.map_values(|s: SeriesModel| file_on(term_cols, s)).len() == 0);
        assert(text == title + "\n\n"@ + chart);
        assert(text.take(text.len() as int) == text);
    } else {
        let fewer = files.drop_last();
        throughput_is_charted(term_cols, unit, max, g, fewer);
        each_download_is_charted(term_cols, unit, max, g, fewer, files.last());
        assert(fewer.push(files.last()) == files);
        let before = text_on(term_cols, unit, max, g, fewer);
        let n = (title + "\n\n"@ + chart).len() as int;
        assert(text.take(n) == before.take(n));
    }
}

/// A further download to chart adds its part at the end of the text, after the title of the section
/// where it is the first: its name and latest speed, and then, with two or more samples, the
/// drawn chart, or, where none was drawn, the latest samples in their units; with fewer the
/// latest samples as plain numbers.
pub proof fn each_download_is_charted(
    term_cols: u16,
    unit: Seq<char>,
    max: Seq<char>,
    g: GlobalModel,
    files: Seq<SeriesModel>,
    s: SeriesModel,
)
    ensures
        s.len >= 0 ==> ({
            let body = if s.len < 2 {
                ": "@ + joined(s.plain, ", "@)
            } else {
                match s.drawn {
                    Some(c) => "\n"@ + c,
                    None => ": "@ + joined(s.in_units, ", "@),
                }
            };
            let part = shortened(s.name) + " ("@ + s.latest + "/s)"@ + body;
            let section = if files.len() == 0 {
                "\n\n"@ + ("\nTop file speeds ("@ + unit + "/s)"@)
            } else {
                Seq::empty()
            };
            text_on(term_cols, unit, max, g, files.push(s)) == text_on(
                term_cols,
                unit,
                max,
                g,
                files,
            ) + section + "\n\n"@ + part
        }),
        text_on(term_cols, unit, max, g, files).len() <= text_on(
            term_cols,
            unit,
            max,
            g,
            files.push(s),
        ).len(),
        text_on(term_cols, unit, max, g, files.push(s)).take(
            text_on(term_cols, unit, max, g, files).len() as int,
        ) == text_on(term_cols, unit, max, g, files),
{
    let on = |s: SeriesModel| file_on(term_cols, s);
    let f = |c| file_part(c);
    let sep = "\n\n"@;
    let charts = files.map_values(on);
    let more = files.push(s).map_values(on);
    let c = file_on(term_cols, s);
    let body = global_on(term_cols, g);
    let first = seq![global_title(unit, max), global_part(body)];
    let head = "\nTop file speeds ("@ + unit + "/s)"@;
    let before = chart_parts(unit, max, body, charts);
    let after = chart_parts(unit, max, body, more);
    assert(more == charts.push(c));
    assert(charts.push(c).map_values(f) == charts.map_values(f).push(file_part(c)));
    let text = joined(before, sep);
    let longer = joined(after, sep);
    let part = file_part(c);
    if files.len() == 0 {
        assert(charts.map_values(f).len() == 0);
        assert(after == before.push(head).push(part));
        joined_texts_keep_their_order(head, before, sep);
        joined_texts_keep_their_order(part, before.push(head), sep);
        assert(longer == text + sep + head + sep + part);
        assert(longer == text + (sep + head) + sep + part);
    } else {
        assert(after == before.push(part));
        joined_texts_keep_their_order(part, before, sep);
        assert(longer == text + sep + part);
        assert(longer == text + Seq::<char>::empty() + sep + part);
    }
    assert(longer.take(text.len() as int) == text);
    if s.len >= 0 {
        lemma_file_part(term_cols, s);
    }
}

/// The part of the text with one download.
proof fn lemma_file_part(term_cols: u16, s: SeriesModel)
    requires
        s.len >= 0,
    ensures
        ({
            let body = if s.len < 2 {
                ": "@ + joined(s.plain, ", "@)
            } else {
                match s.drawn {
                    Some(c) => "\n"@ + c,
                    None => ": "@ + joined(s.in_units, ", "@),
                }
            };
            file_part(file_on(term_cols, s)) == shortened(s.name) + " ("@ + s.latest + "/s)"@ + body
        }),
{
    let head = shortened(s.name) + " ("@ + s.latest + "/s)"@;
    let part = file_part(file_on(term_cols, s));
    if s.len < 2 {
        assert(part == head + (": "@ + joined(s.plain, ", "@)));
    } else {
        match s.drawn {
            Some(c) => {
                assert(part == head + ("\n"@ + c));
            },
            None => {
                assert(part == head + (": "@ + joined(s.in_units, ", "@)));
            },
        }
    }
}

/// A name of at most 33 bytes is shown whole; of a longer one the first 30 bytes are shown, and
/// three dots.
pub proof fn long_names_are_cut_after_30_bytes(p: Seq<char>, q: Seq<char>)
    ensures
        encode_utf8(p + q).len() <= 33 ==> shortened(p + q) == p + q,
        encode_utf8(p + q).len() > 33 && encode_utf8(p).len() == 30 ==> shortened(p + q) == p
            + "..."@,
{
    lemma_encode_add(p, q);
    if encode_utf8(p + q).len() > 33 && encode_utf8(p).len() == 30 {
        assert(encode_utf8(p + q).subrange(0, 30) == encode_utf8(p));
        encode_utf8_decode_utf8(p);
    }
}

/// A name can be shown where it has at most 33 bytes or its characters part after the first 30.
pub proof fn names_that_part_can_be_shown(p: Seq<char>, q: Seq<char>)
    ensures
        encode_utf8(p + q).len() <= 33 ==> is_showable(p + q),
        encode_utf8(p).len() == 30 ==> is_showable(p + q),
{
    lemma_encode_add(p, q);
    if encode_utf8(p).len() == 30 {
        lemma_boundary(p, q);
    }
}

/// The bytes of a text part after the bytes of its beginning.
proof fn lemma_boundary(p: Seq<char>, q: Seq<char>)
    ensures
        is_char_boundary(encode_utf8(p + q), encode_utf8(p).len() as int),
    decreases p.len(),
{
    let bytes = encode_utf8(p + q);
    encode_utf8_valid_utf8(p + q);
    lemma_encode_add(p, q);
    if p.len() > 0 {
        assert((p + q)[0] == p[0]);
        assert((p + q).drop_first() == p.drop_first() + q);
        encode_utf8_first_scalar(p + q);
        let w = encode_scalar(p[0] as u32);
        assert(bytes == w + encode_utf8(p.drop_first() + q));
        assert(encode_utf8(p) == w + encode_utf8(p.drop_first()));
        assert(pop_first_scalar(bytes) == encode_utf8(p.drop_first() + q));
        lemma_boundary(p.drop_first(), q);
    }
}

proof fn lemma_encode_add(p: Seq<char>, q: Seq<char>)
    ensures
        encode_utf8(p + q) == encode_utf8(p) + encode_utf8(q),
    decreases p.len(),
{
    if p.len() == 0 {
        assert(p + q == q);
        assert(encode_utf8(p) + encode_utf8(q) == encode_utf8(q));
    } else {
        assert((p + q)[0] == p[0]);
        assert((p + q).drop_first() == p.drop_first() + q);
        lemma_encode_add(p.drop_first(), q);
        assert(encode_utf8(p + q) =~= encode_utf8(p) + encode_utf8(q));
    }
}

/// Six series are charted, or all where they are fewer, each once. A larger key comes before a
/// smaller one, and of equal keys the one that comes first; what is not charted has no larger key
/// than what is.
pub proof fn six_largest_keys_are_charted(keys: Seq<u64>, i: int, j: int, k: usize)
    requires
        keys.len() <= usize::MAX,
    ensures
        charted(keys).len() == if keys.len() < 6 {
            keys.len()
        } else {
            6
        },
        0 <= i < charted(keys).len() ==> charted(keys)[i] < keys.len(),
        0 <= i < j < charted(keys).len() ==> ({
            let a = charted(keys)[i] as int;
            let b = charted(keys)[j] as int;
            keys[a] > keys[b] || (keys[a] == keys[b] && a < b)
        }),
        0 <= i < charted(keys).len() && k < keys.len() && !charted(keys).contains(k) ==> ({
            let a = charted(keys)[i] as int;
            keys[a] > keys[k as int] || (keys[a] == keys[k as int] && a < k)
        }),
{
    largest_are_charted(keys);
    if 0 <= i < charted(keys).len() && k < keys.len() && !charted(keys).contains(k) {
        assert(ranks_before(keys, charted(keys)[i] as int, k as int));
    }
}

/// What a monitor charts: its own throughputs, and of its own series those with the largest keys,
/// each under its name, with as many samples as it has, and as it was drawn.
pub proof fn monitors_chart_their_series(
    m: MonitorModel,
    term_cols: u16,
    unit: Seq<char>,
    max: Seq<char>,
    drawn: Option<Seq<char>>,
    recent: Seq<Seq<char>>,
    keys: Seq<u64>,
    drawings: Seq<DrawingModel>,
) -> (files: Seq<SeriesModel>)
    requires
        keys.len() == active_series(m.downloads, m.history).len(),
        keys.len() <= usize::MAX,
    ensures
        m.chart_text(term_cols, unit, max, drawn, recent, keys, drawings) == text_on(
            term_cols,
            unit,
            max,
            GlobalModel { len: m.global.len() as int, drawn, recent },
            files,
        ),
        files.len() == charted(keys).len(),
        forall|i: int|
            0 <= i < files.len() ==> {
                let k = charted(keys)[i] as int;
                let s = active_series(m.downloads, m.history)[k];
                &&& (#[trigger] files[i]).name == s.0
                &&& files[i].len == s.1.len()
                &&& files[i].latest == drawings[k].latest
                &&& files[i].drawn == drawings[k].drawn
                &&& files[i].in_units == drawings[k].in_units
                &&& files[i].plain == drawings[k].plain
            },
{
    largest_are_charted(keys);
    let files = picked(m.drawn(drawings), charted(keys));
    assert forall|i: int| 0 <= i < files.len() implies {
        let k = charted(keys)[i] as int;
        let s = active_series(m.downloads, m.history)[k];
        &&& (#[trigger] files[i]).name == s.0
        &&& files[i].len == s.1.len()
        &&& files[i].latest == drawings[k].latest
        &&& files[i].drawn == drawings[k].drawn
        &&& files[i].in_units == drawings[k].in_units
        &&& files[i].plain == drawings[k].plain
    } by {
        assert(charted(keys)[i] < keys.len());
    }
    files
}

/// The text of a monitor's charts begins with the throughput's chart, as soon as there are two
/// throughputs and a chart was drawn of them.
pub proof fn monitors_chart_their_throughput(
    m: MonitorModel,
    term_cols: u16,
    unit: Seq<char>,
    max: Seq<char>,
    chart: Seq<char>,
    recent: Seq<Seq<char>>,
    keys: Seq<u64>,
    drawings: Seq<DrawingModel>,
)
    requires
        m.global.len() >= 2,
    ensures
        ({
            let text = m.chart_text(term_cols, unit, max, Some(chart), recent, keys, drawings);
            let head = "Global throughput ("@ + unit + "/s)  max "@ + max + "/s"@ + "\n\n"@ + chart;
            head.len() <= text.len() && text.take(head.len() as int) == head
        }),
{
    throughput_is_charted(
        term_cols,
        unit,
        max,
        GlobalModel { len: m.global.len() as int, drawn: Some(chart), recent },
        picked(m.drawn(drawings), charted(keys)),
    );
}

} // verus!
