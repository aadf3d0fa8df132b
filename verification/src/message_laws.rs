//! What a line of the stream says, for every line: which layer counts, which fields are read, and
//! what each part of a report is.

use vstd::prelude::*;

verus! {

use crate::json::{json_of, lemma_get_is_smaller, member, JsonModel};
use crate::message::{
    clean_title, innermost, is_titled, line_message, message_of, report_of, titled_name,
    titled_report, MessageModel, ReportModel,
};
use crate::text::{
    filled_lines, first_of, is_space, joined, lemma_first_of_is, pieces, trimmed,
};
use crate::text_laws::{
    blank_text_has_no_lines, is_blank, is_tight, joined_texts_are_pieces,
    leading_white_space_adds_no_line, lines_come_in_their_order, padding_is_trimmed,
    trimming_cuts_white_space,
};

/// Tells whether `s` is empty or begins with a line end.
pub open spec fn is_tail(s: Seq<char>) -> bool {
    s.len() > 0 ==> s[0] == '\n'
}

/// Tells whether `s` is a line as it stands in a report: not empty, without white space at its
/// ends, and without a line end.
pub open spec fn is_line(s: Seq<char>) -> bool {
    s.len() > 0 && !is_space(s[0]) && !is_space(s.last()) && !s.contains('\n')
}

/// Lines that stand after white space and before other lines come as they are.
proof fn lemma_line_first(l: Seq<char>, a: Seq<char>, r: Seq<char>, tail: Seq<char>)
    requires
        is_blank(l),
        is_line(a),
        is_blank(r),
        !r.contains('\n'),
        is_tail(tail),
    ensures
        filled_lines(l + a + r + tail).len() > 0,
        filled_lines(l + a + r + tail)[0] == a,
        tail.len() == 0 ==> filled_lines(l + a + r + tail) == seq![a],
        tail.len() > 0 ==> filled_lines(l + a + r + tail) == seq![a] + filled_lines(tail.skip(1)),
{
    let none = Seq::<char>::empty();
    let line = a + r;
    assert(l + a + r + tail == l + (line + tail));
    leading_white_space_adds_no_line(l, line + tail);
    assert(!line.contains('\n')) by {
        if line.contains('\n') {
            let x = choose|x: int| 0 <= x < line.len() && line[x] == '\n';
            if x < a.len() {
                assert(a[x] == '\n');
            } else {
                assert(r[x - a.len()] == '\n');
            }
        }
    }
    padding_is_trimmed(none, a, r);
    assert(none + a + r == line);
    if tail.len() > 0 {
        let rest = tail.skip(1);
        assert(line + seq!['\n'] + rest == line + tail);
        lines_come_in_their_order(line, rest);
    } else {
        assert(line + tail == line);
        lines_come_in_their_order(line, none);
    }
}

/// The download that a message with the manager's title reports on has the first line that is not
/// blank as its name: the whole of it, whatever stands inside it and whatever follows.
pub proof fn name_is_the_first_line(
    m: MessageModel,
    l: Seq<char>,
    a: Seq<char>,
    r: Seq<char>,
    tail: Seq<char>,
)
    requires
        m.message == Some(l + a + r + tail),
        is_blank(l),
        is_line(a),
        is_blank(r),
        !r.contains('\n'),
        is_tail(tail),
    ensures
        titled_name(m) == a,
        titled_report(m).name == a,
        is_titled(m) ==> (report_of(m) matches Some(report) && report.name == a),
{
    lemma_line_first(l, a, r, tail);
}

/// Messages with different first lines report on different downloads.
pub proof fn different_lines_are_different_downloads(
    m: MessageModel,
    a: Seq<char>,
    tail: Seq<char>,
    m2: MessageModel,
    a2: Seq<char>,
    tail2: Seq<char>,
)
    requires
        m.message == Some(a + tail),
        m2.message == Some(a2 + tail2),
        is_line(a),
        is_line(a2),
        is_tail(tail),
        is_tail(tail2),
        a != a2,
    ensures
        titled_report(m).name != titled_report(m2).name,
{
    let none = Seq::<char>::empty();
    assert(none + a + none + tail == a + tail);
    assert(none + a2 + none + tail2 == a2 + tail2);
    name_is_the_first_line(m, none, a, none, tail);
    name_is_the_first_line(m2, none, a2, none, tail2);
}

/// A message with the manager's title and a blank text, or none, reports on an unknown download,
/// of which nothing else is known.
pub proof fn blank_message_names_no_download(m: MessageModel)
    requires
        m.message matches Some(s) ==> is_blank(s),
    ensures
        titled_report(m) == (ReportModel {
            name: "Unknown Asset"@,
            percent: "0%"@,
            size: "Unknown Size"@,
            speed: "0KB/s"@,
            eta: "--"@,
            total_duration: "--"@,
        }),
{
    match m.message {
        Some(s) => {
            blank_text_has_no_lines(s);
        },
        None => {
            blank_text_has_no_lines(Seq::empty());
        },
    }
    lemma_default_times();
}

/// The times that stand where a report tells none.
proof fn lemma_default_times()
    ensures
        ({
            let times = "--/--"@;
            let slash = first_of(times, '/') as int;
            &&& slash < times.len()
            &&& trimmed(times.take(slash)) == "--"@
            &&& trimmed(times.skip(slash + 1)) == "--"@
        }),
{
    reveal_strlit("--/--");
    reveal_strlit("--");
    let times = "--/--"@;
    let none = Seq::<char>::empty();
    lemma_first_of_is(times, '/', 2);
    assert(times.take(2) == "--"@);
    assert(times.skip(3) == "--"@);
    padding_is_trimmed(none, "--"@, none);
    assert(none + "--"@ + none == "--"@);
}

/// A message with a name alone tells nothing else of the download.
pub proof fn name_alone_tells_nothing_else(m: MessageModel, a: Seq<char>, tail: Seq<char>)
    requires
        m.message == Some(a + tail),
        is_line(a),
        is_tail(tail),
        is_blank(tail),
    ensures
        titled_report(m) == (ReportModel {
            name: a,
            percent: "0%"@,
            size: "Unknown Size"@,
            speed: "0KB/s"@,
            eta: "--"@,
            total_duration: "--"@,
        }),
{
    let none = Seq::<char>::empty();
    assert(none + a + none + tail == a + tail);
    lemma_line_first(none, a, none, tail);
    if tail.len() > 0 {
        let rest = tail.skip(1);
        assert forall|x: int| 0 <= x < rest.len() implies is_space(#[trigger] rest[x]) by {
            assert(rest[x] == tail[x + 1]);
        }
        blank_text_has_no_lines(rest);
        assert(filled_lines(rest) == Seq::<Seq<char>>::empty());
        assert(seq![a] + filled_lines(rest) == seq![a]);
    }
    lemma_default_times();
}

/// The second line of a message with the manager's title is read between its bars: percentage,
/// size and speed, each without the white space around it and as it is otherwise; of what is
/// missing nothing is known. Bars and lines after these do not matter.
pub proof fn metrics_stand_between_bars(
    m: MessageModel,
    a: Seq<char>,
    fields: Seq<Seq<char>>,
    tail: Seq<char>,
)
    requires
        fields.len() > 0,
        forall|i: int| 0 <= i < fields.len() ==> !(#[trigger] fields[i]).contains('|'),
        is_line(a),
        is_line(joined(fields, seq!['|'])),
        is_tail(tail),
        m.message == Some(a + seq!['\n'] + joined(fields, seq!['|']) + tail),
    ensures
        ({
            let r = titled_report(m);
            &&& r.name == a
            &&& r.percent == trimmed(fields[0])
            &&& r.size == if fields.len() > 1 {
                trimmed(fields[1])
            } else {
                "Unknown Size"@
            }
            &&& r.speed == if fields.len() > 2 {
                trimmed(fields[2])
            } else {
                "0KB/s"@
            }
            &&& fields.len() <= 3 ==> r.eta == "--"@ && r.total_duration == "--"@
        }),
{
    lemma_second_line(m, a, fields, tail);
    lemma_default_times();
}

proof fn lemma_second_line(
    m: MessageModel,
    a: Seq<char>,
    fields: Seq<Seq<char>>,
    tail: Seq<char>,
)
    requires
        fields.len() > 0,
        forall|i: int| 0 <= i < fields.len() ==> !(#[trigger] fields[i]).contains('|'),
        is_line(a),
        is_line(joined(fields, seq!['|'])),
        is_tail(tail),
        m.message == Some(a + seq!['\n'] + joined(fields, seq!['|']) + tail),
    ensures
        ({
            let lines = filled_lines(m.message->0);
            &&& lines.len() > 1
            &&& lines[0] == a
            &&& pieces(lines[1], '|') == fields
        }),
{
    let none = Seq::<char>::empty();
    let b = joined(fields, seq!['|']);
    let after = seq!['\n'] + b + tail;
    assert(a + seq!['\n'] + b + tail == none + a + none + after);
    lemma_line_first(none, a, none, after);
    assert(after.skip(1) == none + b + none + tail);
    lemma_line_first(none, b, none, tail);
    joined_texts_are_pieces(fields, '|');
}

/// Where the fourth field has a slash, what stands before the first one is the time that is left
/// and what stands after it the total time, each without the white space around it; where it has
/// none, it is the time that is left, and the total is not known.
pub proof fn times_stand_around_a_slash(
    m: MessageModel,
    a: Seq<char>,
    fields: Seq<Seq<char>>,
    tail: Seq<char>,
    left: Seq<char>,
    total: Seq<char>,
)
    requires
        fields.len() > 3,
        forall|i: int| 0 <= i < fields.len() ==> !(#[trigger] fields[i]).contains('|'),
        is_line(a),
        is_line(joined(fields, seq!['|'])),
        is_tail(tail),
        m.message == Some(a + seq!['\n'] + joined(fields, seq!['|']) + tail),
        !left.contains('/'),
    ensures
        fields[3] == left + seq!['/'] + total ==> titled_report(m).eta == trimmed(left)
            && titled_report(m).total_duration == trimmed(total),
        fields[3] == left ==> titled_report(m).eta == trimmed(left)
            && titled_report(m).total_duration == "--"@,
{
    lemma_second_line(m, a, fields, tail);
    let times = trimmed(fields[3]);
    if fields[3] == left + seq!['/'] + total {
        lemma_times(left, total);
    }
    if fields[3] == left {
        let (i, j) = trimming_cuts_white_space(left);
        assert forall|x: int| 0 <= x < times.len() implies times[x] != '/' by {
            assert(left.contains(left[i + x]));
        }
        lemma_first_of_is(times, '/', times.len() as int);
        let none = Seq::<char>::empty();
        padding_is_trimmed(none, times, none);
        assert(none + times + none == times);
    }
}

proof fn lemma_times(left: Seq<char>, total: Seq<char>)
    requires
        !left.contains('/'),
    ensures
        ({
            let times = trimmed(left + seq!['/'] + total);
            let slash = first_of(times, '/') as int;
            &&& slash < times.len()
            &&& trimmed(times.take(slash)) == trimmed(left)
            &&& trimmed(times.skip(slash + 1)) == trimmed(total)
        }),
{
    let s = left + seq!['/'] + total;
    let (i, j) = trimming_cuts_white_space(left);
    let (k, n) = trimming_cuts_white_space(total);
    let (l, t) = if trimmed(left).len() > 0 {
        (left.take(i), left.skip(i))
    } else {
        (left, Seq::<char>::empty())
    };
    let u = if trimmed(total).len() > 0 {
        total.take(n)
    } else {
        Seq::<char>::empty()
    };
    let r2 = if trimmed(total).len() > 0 {
        total.skip(n)
    } else {
        total
    };
    if trimmed(left).len() == 0 {
        assert forall|x: int| 0 <= x < left.len() implies is_space(#[trigger] left[x]) by {
            if x < i {
                assert(left[x] == left.take(i)[x]);
            } else {
                assert(left[x] == left.skip(j)[x - j]);
            }
        }
    } else {
        assert(left.skip(i)[0] == trimmed(left)[0]);
    }
    if trimmed(total).len() == 0 {
        assert forall|x: int| 0 <= x < total.len() implies is_space(#[trigger] total[x]) by {
            if x < k {
                assert(total[x] == total.take(k)[x]);
            } else {
                assert(total[x] == total.skip(n)[x - n]);
            }
        }
    } else {
        assert(total.take(n).last() == trimmed(total).last());
    }
    let core = t + seq!['/'] + u;
    assert(s == l + core + r2);
    assert(core[t.len() as int] == '/');
    assert(!is_space('/'));
    assert(core[0] == if t.len() > 0 { t[0] } else { '/' });
    assert(core.last() == if u.len() > 0 { u.last() } else { '/' });
    padding_is_trimmed(l, core, r2);
    assert forall|x: int| 0 <= x < t.len() implies core[x] != '/' by {
        assert(core[x] == t[x]);
        if trimmed(left).len() > 0 {
            assert(left.contains(left[i + x]));
        }
    }
    lemma_first_of_is(core, '/', t.len() as int);
    assert(core.take(t.len() as int) == t);
    assert(core.skip(t.len() as int + 1) == u);
    let none = Seq::<char>::empty();
    if trimmed(left).len() > 0 {
        assert(t == none + trimmed(left) + left.skip(j));
        padding_is_trimmed(none, trimmed(left), left.skip(j));
    } else {
        padding_is_trimmed(none, none, none);
        assert(none + none + none == none);
    }
    if trimmed(total).len() > 0 {
        assert(u == total.take(k) + trimmed(total) + none);
        padding_is_trimmed(total.take(k), trimmed(total), none);
    } else {
        padding_is_trimmed(none, none, none);
        assert(none + none + none == none);
    }
}

/// The sign of a phone in a title does not matter, wherever it stands.
pub proof fn phone_sign_does_not_matter(
    m: MessageModel,
    m2: MessageModel,
    x: Seq<char>,
    y: Seq<char>,
)
    requires
        m.title == Some(x + y),
        m2.title == Some(x + seq!['\u{1f4f1}'] + y),
    ensures
        is_titled(m) == is_titled(m2),
{
    let keep = |c: char| c != '\u{1f4f1}';
    let phone = seq!['\u{1f4f1}'];
    lemma_filter_add(x, y, keep);
    lemma_filter_add(x + phone, y, keep);
    lemma_filter_add(x, phone, keep);
    reveal(Seq::filter);
    assert(phone.drop_last() == Seq::<char>::empty());
    assert(phone.drop_last().filter(keep) == Seq::<char>::empty());
    assert(phone.filter(keep) == Seq::<char>::empty());
    assert(x.filter(keep) + phone.filter(keep) == x.filter(keep));
}

proof fn lemma_filter_add(a: Seq<char>, b: Seq<char>, keep: spec_fn(char) -> bool)
    ensures
        (a + b).filter(keep) == a.filter(keep) + b.filter(keep),
    decreases b.len(),
{
    reveal(Seq::filter);
    if b.len() == 0 {
        assert(a + b == a);
        assert(a.filter(keep) + b.filter(keep) == a.filter(keep));
    } else {
        assert((a + b).drop_last() == a + b.drop_last());
        lemma_filter_add(a, b.drop_last(), keep);
        assert((a + b).filter(keep) =~= a.filter(keep) + b.filter(keep));
    }
}

proof fn lemma_filter_all(s: Seq<char>, keep: spec_fn(char) -> bool)
    requires
        forall|i: int| 0 <= i < s.len() ==> keep(#[trigger] s[i]),
    ensures
        s.filter(keep) == s,
    decreases s.len(),
{
    reveal(Seq::filter);
    if s.len() > 0 {
        let t = s.drop_last();
        assert forall|i: int| 0 <= i < t.len() implies keep(#[trigger] t[i]) by {
            assert(t[i] == s[i]);
        }
        lemma_filter_all(t, keep);
        assert(keep(s[s.len() - 1]));
        assert(t.push(s.last()) == s);
    }
}

/// A title without that sign is the download manager's where, after white space, it begins with
/// `idm.internet.`, and only there.
pub proof fn manager_title_begins_with_its_name(
    m: MessageModel,
    l: Seq<char>,
    t: Seq<char>,
    r: Seq<char>,
)
    requires
        m.title == Some(l + t + r),
        is_blank(l),
        is_tight(t),
        is_blank(r),
        !t.contains('\u{1f4f1}'),
    ensures
        is_titled(m) <==> t.len() >= 13 && t.take(13) == "idm.internet."@,
{
    lemma_clean_title(l, t, r);
    lemma_manager_name();
    if t.len() >= 13 {
        assert(t.take(13) == t.subrange(0, 13));
    }
}

proof fn lemma_manager_name()
    ensures
        "idm.internet."@.len() == 13,
{
    reveal_strlit("idm.internet.");
}

proof fn lemma_clean_title(l: Seq<char>, t: Seq<char>, r: Seq<char>)
    requires
        is_blank(l),
        is_tight(t),
        is_blank(r),
        !t.contains('\u{1f4f1}'),
    ensures
        clean_title(l + t + r) == t,
{
    let keep = |c: char| c != '\u{1f4f1}';
    let s = l + t + r;
    assert forall|i: int| 0 <= i < s.len() implies keep(#[trigger] s[i]) by {
        if i < l.len() {
            assert(s[i] == l[i]);
        } else if i < l.len() + t.len() {
            assert(s[i] == t[i - l.len()]);
            assert(t.contains(t[i - l.len()]));
        } else {
            assert(s[i] == r[i - l.len() - t.len()]);
        }
    }
    lemma_filter_all(s, keep);
    padding_is_trimmed(l, t, r);
}

/// A message without a title has no manager's title.
pub proof fn no_title_is_no_manager_title(m: MessageModel)
    requires
        m.title is None,
    ensures
        !is_titled(m),
{
}

/// A message with a title makes a report where the title is the download manager's, and only
/// there; one without a title where its text begins with `idm.internet.`, and only there. That
/// text is then the name, and nothing else is known.
pub proof fn only_the_manager_reports(m: MessageModel)
    ensures
        m.title is Some ==> (report_of(m) is Some <==> is_titled(m)),
        is_titled(m) ==> report_of(m) == Some(titled_report(m)),
        m.title is None ==> (report_of(m) is Some <==> (m.message matches Some(s) && s.len() >= 13
            && s.take(13) == "idm.internet."@)),
        m.title is None && report_of(m) is Some ==> report_of(m) == Some(
            ReportModel {
                name: m.message->0,
                percent: "0%"@,
                size: "Unknown"@,
                speed: "0KB/s"@,
                eta: "--"@,
                total_duration: "--"@,
            },
        ),
{
    lemma_manager_name();
    if let Some(s) = m.message {
        if s.len() >= 13 {
            assert(s.take(13) == s.subrange(0, 13));
        }
    }
}

/// The member of an object under a key is the first one with that key; other values have none.
pub proof fn first_member_counts(v: JsonModel, key: Seq<char>, i: int)
    requires
        v matches JsonModel::Object(members) && 0 <= i < members.len() && members[i].0 == key
            && forall|j: int| 0 <= j < i ==> (#[trigger] members[j]).0 != key,
    ensures
        v.get(key) == Some(v->Object_0[i].1),
    decreases i,
{
    let members = v->Object_0;
    if i > 0 {
        let rest = JsonModel::Object(members.skip(1));
        assert(members[0].0 != key);
        assert forall|j: int| 0 <= j < i - 1 implies (#[trigger] members.skip(1)[j]).0 != key by {
            assert(members.skip(1)[j] == members[j + 1]);
        }
        assert(members.skip(1)[i - 1] == members[i]);
        first_member_counts(rest, key, i - 1);
    }
}

/// Where no member has a key, or the value is no object, there is nothing under it.
pub proof fn missing_member_is_none(v: JsonModel, key: Seq<char>)
    requires
        v matches JsonModel::Object(members) ==> forall|j: int|
            0 <= j < members.len() ==> (#[trigger] members[j]).0 != key,
    ensures
        v.get(key) is None,
{
    if let JsonModel::Object(members) = v {
        lemma_no_member(members, key);
    }
}

proof fn lemma_no_member(members: Seq<(Seq<char>, JsonModel)>, key: Seq<char>)
    requires
        forall|j: int| 0 <= j < members.len() ==> (#[trigger] members[j]).0 != key,
    ensures
        member(members, key) is None,
    decreases members.len(),
{
    if members.len() > 0 {
        assert(members[0].0 != key);
        let rest = members.skip(1);
        assert forall|j: int| 0 <= j < rest.len() implies (#[trigger] rest[j]).0 != key by {
            assert(rest[j] == members[j + 1]);
        }
        lemma_no_member(rest, key);
    }
}

/// Which layer of a value counts. A `message` that is an object, or a text that reads as an object
/// or an array, is looked into; any other is not, and then the value itself counts.
pub proof fn message_is_looked_into(v: JsonModel)
    ensures
        match v.get("message"@) {
            Some(JsonModel::Object(o)) => innermost(v) == innermost(JsonModel::Object(o)),
            Some(JsonModel::Text(s)) => match json_of(s) {
                Some(JsonModel::Object(o)) => JsonModel::Object(o).size() <= s.len() ==> innermost(
                    v,
                ) == innermost(JsonModel::Object(o)),
                Some(JsonModel::Array(a)) => JsonModel::Array(a).size() <= s.len() ==> innermost(v)
                    == JsonModel::Array(a),
                _ => innermost(v) == v,
            },
            _ => innermost(v) == v,
        },
{
    lemma_get_is_smaller(v, "message"@);
    if let Some(JsonModel::Text(s)) = v.get("message"@) {
        assert(JsonModel::Text(s).size() == s.len() + 1);
        if let Some(JsonModel::Array(a)) = json_of(s) {
            assert(JsonModel::Array(a).get("message"@) is None);
            assert(innermost(JsonModel::Array(a)) == JsonModel::Array(a));
        }
    }
}

/// The fields that are read are those of the layer that counts: its `time` where that is a number
/// that fits, its `title` and its `message` where they are texts.
pub proof fn fields_are_of_the_layer(v: JsonModel, n: i64, s: Seq<char>)
    ensures
        message_of(v).time == Some(n) <==> v.get("time"@) == Some(JsonModel::Number(Some(n))),
        message_of(v).title == Some(s) <==> v.get("title"@) == Some(JsonModel::Text(s)),
        message_of(v).message == Some(s) <==> v.get("message"@) == Some(JsonModel::Text(s)),
{
}

/// A line carries a message where it is JSON once the white space around it is left out, and only
/// there; and that is the message of the layer that counts.
pub proof fn line_is_json(l: Seq<char>, s: Seq<char>, r: Seq<char>)
    requires
        is_blank(l),
        is_tight(s),
        is_blank(r),
    ensures
        s.len() == 0 ==> line_message(l + s + r) is None,
        s.len() > 0 ==> (match json_of(s) {
            Some(v) => line_message(l + s + r) == Some(message_of(innermost(v))),
            None => line_message(l + s + r) is None,
        }),
{
    padding_is_trimmed(l, s, r);
}

/// A line that is an object with the manager's title and a text that is no layer of its own makes
/// the report of that title and that text.
pub proof fn object_makes_its_report(
    line: Seq<char>,
    v: JsonModel,
    title: Seq<char>,
    text: Seq<char>,
)
    requires
        line.len() > 0,
        is_tight(line),
        json_of(line) == Some(v),
        v.get("title"@) == Some(JsonModel::Text(title)),
        v.get("message"@) == Some(JsonModel::Text(text)),
        !(json_of(text) matches Some(w) && (w is Object || w is Array)),
    ensures
        line_message(line) matches Some(m) && m.title == Some(title) && m.message == Some(text),
{
    let none = Seq::<char>::empty();
    line_is_json(none, line, none);
    assert(none + line + none == line);
    message_is_looked_into(v);
}

} // verus!
