//! From a line of the stream to the report that it carries.

use vstd::prelude::*;

use crate::json::{parse_json, Json};
use crate::text;

verus! {

use crate::json::{json_of, lemma_get_is_smaller, JsonModel};
use crate::text::{filled_lines, first_of, pieces, trimmed};

/// What a monitor reads of a message: the fields of its innermost layer.
#[derive(Debug)]
pub struct Message {
    pub time: Option<i64>,
    pub title: Option<String>,
    pub message: Option<String>,
}

/// What a [`Message`] stands for.
pub struct MessageModel {
    pub time: Option<i64>,
    pub title: Option<Seq<char>>,
    pub message: Option<Seq<char>>,
}

/// The text of an optional string.
pub open spec fn text_of(s: Option<String>) -> Option<Seq<char>> {
    match s {
        Some(t) => Some(t@),
        None => None,
    }
}

impl View for Message {
    type V = MessageModel;

    open spec fn view(&self) -> MessageModel {
        MessageModel {
            time: self.time,
            title: text_of(self.title),
            message: text_of(self.message),
        }
    }
}

/// One report on a download.
#[derive(Debug)]
pub struct Report {
    pub name: String,
    pub percent: String,
    pub size: String,
    pub speed: String,
    pub eta: String,
    pub total_duration: String,
}

/// What a [`Report`] stands for.
pub struct ReportModel {
    pub name: Seq<char>,
    pub percent: Seq<char>,
    pub size: Seq<char>,
    pub speed: Seq<char>,
    pub eta: Seq<char>,
    pub total_duration: Seq<char>,
}

impl View for Report {
    type V = ReportModel;

    open spec fn view(&self) -> ReportModel {
        ReportModel {
            name: self.name@,
            percent: self.percent@,
            size: self.size@,
            speed: self.speed@,
            eta: self.eta@,
            total_duration: self.total_duration@,
        }
    }
}

/// A value read from a text counts as a layer where it is an object or an array.
pub open spec fn container(v: Option<JsonModel>) -> Option<JsonModel> {
    match v {
        Some(w) => if w is Object || w is Array {
            Some(w)
        } else {
            None
        },
        None => None,
    }
}

/// The layer that `v` wraps: its `message`, where that is an object, or a text that reads as an
/// object or an array.
pub open spec fn next_layer(v: JsonModel) -> Option<JsonModel> {
    match v.get("message"@) {
        Some(JsonModel::Text(s)) => container(json_of(s)),
        Some(w) => if w is Object {
            Some(w)
        } else {
            None
        },
        None => None,
    }
}

/// The layer of `v` that wraps no other. A layer is smaller than what wraps it.
pub open spec fn innermost(v: JsonModel) -> JsonModel
    decreases v.size(),
{
    match next_layer(v) {
        Some(w) => if w.size() < v.size() {
            innermost(w)
        } else {
            v
        },
        None => v,
    }
}

/// Tells whether the value that a line carries, if it is not blank, is unwrapped to the end: what
/// is taken for its innermost layer wraps no other.
pub open spec fn unwraps_fully(line: Seq<char>) -> bool {
    trimmed(line).len() > 0 ==> (json_of(trimmed(line)) matches Some(v) ==> next_layer(
        innermost(v),
    ) is None)
}

/// The fields of `v` that a monitor reads.
pub open spec fn message_of(v: JsonModel) -> MessageModel {
    MessageModel {
        time: match v.get("time"@) {
            Some(JsonModel::Number(n)) => n,
            _ => None,
        },
        title: match v.get("title"@) {
            Some(JsonModel::Text(s)) => Some(s),
            _ => None,
        },
        message: match v.get("message"@) {
            Some(JsonModel::Text(s)) => Some(s),
            _ => None,
        },
    }
}

/// The message that a line carries; none where the line is blank or no JSON.
pub open spec fn line_message(line: Seq<char>) -> Option<MessageModel> {
    if trimmed(line).len() == 0 {
        None
    } else {
        match json_of(trimmed(line)) {
            Some(v) => Some(message_of(innermost(v))),
            None => None,
        }
    }
}

/// A title without the phone sign and without the white space around it.
pub open spec fn clean_title(title: Seq<char>) -> Seq<char> {
    trimmed(title.filter(|c: char| c != '\u{1f4f1}'))
}

/// The text of the message, empty where there is none.
pub open spec fn body(m: MessageModel) -> Seq<char> {
    match m.message {
        Some(s) => s,
        None => Seq::empty(),
    }
}

/// The trimmed part number `i`, or `default` where there are fewer parts.
pub open spec fn metric(parts: Seq<Seq<char>>, i: int, default: Seq<char>) -> Seq<char> {
    if i < parts.len() {
        trimmed(parts[i])
    } else {
        default
    }
}

/// The name that a titled message reports on: its first line.
pub open spec fn titled_name(m: MessageModel) -> Seq<char> {
    let lines = filled_lines(body(m));
    if lines.len() > 0 {
        lines[0]
    } else {
        "Unknown Asset"@
    }
}

/// The report of a message whose title is the download manager's: the first line is the name,
/// the second holds percentage, size, speed and times, between bars.
pub open spec fn titled_report(m: MessageModel) -> ReportModel {
    let lines = filled_lines(body(m));
    let parts = if lines.len() > 1 {
        pieces(lines[1], '|')
    } else {
        Seq::empty()
    };
    let times = metric(parts, 3, "--/--"@);
    let slash = first_of(times, '/') as int;
    ReportModel {
        name: titled_name(m),
        percent: metric(parts, 0, "0%"@),
        size: metric(parts, 1, "Unknown Size"@),
        speed: metric(parts, 2, "0KB/s"@),
        eta: if slash < times.len() {
            trimmed(times.take(slash))
        } else {
            trimmed(times)
        },
        total_duration: if slash < times.len() {
            trimmed(times.skip(slash + 1))
        } else {
            "--"@
        },
    }
}

/// The report of a message without a title: a name alone.
pub open spec fn bare_report(m: MessageModel) -> ReportModel {
    ReportModel {
        name: body(m),
        percent: "0%"@,
        size: "Unknown"@,
        speed: "0KB/s"@,
        eta: "--"@,
        total_duration: "--"@,
    }
}

/// Tells whether the message has a title and that title is the download manager's.
pub open spec fn is_titled(m: MessageModel) -> bool {
    m.title matches Some(t) && "idm.internet."@.is_prefix_of(clean_title(t))
}

/// The report that a message makes; none where it does not come from the download manager.
pub open spec fn report_of(m: MessageModel) -> Option<ReportModel> {
    if m.title is Some {
        if is_titled(m) {
            Some(titled_report(m))
        } else {
            None
        }
    } else if "idm.internet."@.is_prefix_of(body(m)) {
        Some(bare_report(m))
    } else {
        None
    }
}

/// Keeps a value read from a text where it is an object or an array.
pub fn layer_in_text(parsed: Option<Json>) -> (r: Option<Json>)
    ensures
        match r {
            Some(v) => parsed == Some(v) && (v@ is Object || v@ is Array),
            None => parsed matches Some(v) ==> !(v@ is Object) && !(v@ is Array),
        },
{
    match parsed {
        Some(v) => if v.is_object() || v.is_array() {
            Some(v)
        } else {
            None
        },
        None => None,
    }
}

/// The fields of `v` that a monitor reads.
pub fn read_message(v: &Json) -> (r: Message)
    ensures
        r@ == message_of(v@),
{
    let time = match v.get("time") {
        Some(Json::Number(n)) => *n,
        _ => None,
    };
    let title = match v.get("title") {
        Some(Json::Text(s)) => Some(s.clone()),
        _ => None,
    };
    let message = match v.get("message") {
        Some(Json::Text(s)) => Some(s.clone()),
        _ => None,
    };
    Message { time, title, message }
}

/// The message in the layer of `v` that wraps no other.
pub fn innermost_message(v: &Json) -> (r: Message)
    ensures
        r@ == message_of(innermost(v@)),
        next_layer(innermost(v@)) is None,
    decreases v@.size(),
{
    proof {
        lemma_get_is_smaller(v@, "message"@);
    }
    match v.get("message") {
        Some(Json::Text(s)) => {
            if let Some(w) = layer_in_text(parse_json(s.as_str())) {
                return innermost_message(&w);
            }
        },
        Some(w) => {
            if w.is_object() {
                return innermost_message(w);
            }
        },
        None => {},
    }
    read_message(v)
}

/// The message that a line carries; none where the line is blank or no JSON.
pub fn read_line(line: &str) -> (r: Option<Message>)
    ensures
        match r {
            Some(m) => line_message(line@) == Some(m@),
            None => line_message(line@) is None,
        },
        unwraps_fully(line@),
{
    let raw = text::trim(line);
    if raw.is_empty() {
        return None;
    }
    match parse_json(raw) {
        Some(v) => Some(innermost_message(&v)),
        None => None,
    }
}

/// Tells whether the message has a title and that title is the download manager's.
pub fn has_manager_title(m: &Message) -> (r: bool)
    ensures
        r == is_titled(m@),
{
    match &m.title {
        Some(title) => {
            let clean = text::remove_char(title.as_str(), '\u{1f4f1}');
            text::starts_with(text::trim(clean.as_str()), "idm.internet.")
        },
        None => false,
    }
}

fn body_text<'a>(m: &'a Message) -> (r: &'a str)
    ensures
        r@ == body(m@),
{
    match &m.message {
        Some(s) => s.as_str(),
        None => {
            proof {
                reveal_strlit("");
                assert(""@ == Seq::<char>::empty());
            }
            ""
        },
    }
}

fn metric_text(parts: &Vec<String>, i: usize, default: &str) -> (r: String)
    ensures
        r@ == metric(text::texts(parts@), i as int, default@),
{
    if i < parts.len() {
        text::trim(parts[i].as_str()).to_owned()
    } else {
        default.to_owned()
    }
}

/// The name that a titled message reports on: its first line.
pub fn read_titled_name(m: &Message) -> (r: String)
    ensures
        r@ == titled_name(m@),
{
    let lines = text::lines(body_text(m));
    if lines.len() > 0 {
        lines[0].clone()
    } else {
        "Unknown Asset".to_owned()
    }
}

fn read_titled_report(m: &Message) -> (r: Report)
    ensures
        r@ == titled_report(m@),
{
    let lines = text::lines(body_text(m));
    let parts: Vec<String> = if lines.len() > 1 {
        text::split(lines[1].as_str(), '|')
    } else {
        Vec::new()
    };
    proof {
        if lines.len() <= 1 {
            assert(text::texts(parts@) == Seq::<Seq<char>>::empty());
        }
    }
    let times = metric_text(&parts, 3, "--/--");
    let (eta, total_duration) = match text::find(times.as_str(), '/') {
        Some(i) => {
            let n: usize = times.as_str().unicode_len();
            assert(times@.subrange(0, i as int) == times@.take(i as int));
            assert(times@.subrange(i + 1, n as int) == times@.skip(i + 1));
            (
                text::trim(times.as_str().substring_char(0, i)).to_owned(),
                text::trim(times.as_str().substring_char(i + 1, n)).to_owned(),
            )
        },
        None => (text::trim(times.as_str()).to_owned(), "--".to_owned()),
    };
    Report {
        name: read_titled_name(m),
        percent: metric_text(&parts, 0, "0%"),
        size: metric_text(&parts, 1, "Unknown Size"),
        speed: metric_text(&parts, 2, "0KB/s"),
        eta,
        total_duration,
    }
}

/// The report that a message makes; none where it does not come from the download manager.
pub fn read_report(m: &Message) -> (r: Option<Report>)
    ensures
        match r {
            Some(report) => report_of(m@) == Some(report@),
            None => report_of(m@) is None,
        },
{
    if m.title.is_some() {
        if !has_manager_title(m) {
            return None;
        }
        Some(read_titled_report(m))
    } else {
        let name = body_text(m);
        if !text::starts_with(name, "idm.internet.") {
            return None;
        }
        Some(
            Report {
                name: name.to_owned(),
                percent: "0%".to_owned(),
                size: "Unknown".to_owned(),
                speed: "0KB/s".to_owned(),
                eta: "--".to_owned(),
                total_duration: "--".to_owned(),
            },
        )
    }
}

} // verus!
