//! What the table of downloads shows.

use vstd::prelude::*;

use crate::entry::{DownloadEntry, EntryModel, Status};

verus! {

/// The colour of a cell.
#[derive(Debug, Clone, Copy, PartialEq, Eq, Structural)]
pub enum Tone {
    /// None of its own.
    Plain,
    Green,
    Red,
    Cyan,
}

/// A row of the table. Where it is not `coloured`, all its cells are plain.
#[derive(Debug)]
pub struct TableRow {
    pub coloured: bool,
    pub number: String,
    pub progress: String,
    pub progress_tone: Tone,
    pub progress_bold: bool,
    pub name: String,
    pub size: String,
    pub speed: String,
    pub eta: String,
    pub total_duration: String,
    pub status: String,
    pub status_tone: Tone,
    pub timestamp: String,
}

/// What a [`TableRow`] stands for.
pub struct RowModel {
    pub coloured: bool,
    pub number: Seq<char>,
    pub progress: Seq<char>,
    pub progress_tone: Tone,
    pub progress_bold: bool,
    pub name: Seq<char>,
    pub size: Seq<char>,
    pub speed: Seq<char>,
    pub eta: Seq<char>,
    pub total_duration: Seq<char>,
    pub status: Seq<char>,
    pub status_tone: Tone,
    pub timestamp: Seq<char>,
}

impl View for TableRow {
    type V = RowModel;

    open spec fn view(&self) -> RowModel {
        RowModel {
            coloured: self.coloured,
            number: self.number@,
            progress: self.progress@,
            progress_tone: self.progress_tone,
            progress_bold: self.progress_bold,
            name: self.name@,
            size: self.size@,
            speed: self.speed@,
            eta: self.eta@,
            total_duration: self.total_duration@,
            status: self.status@,
            status_tone: self.status_tone,
            timestamp: self.timestamp@,
        }
    }
}

/// A digit.
pub open spec fn digit(n: nat) -> Seq<char> {
    if n == 0 {
        "0"@
    } else if n == 1 {
        "1"@
    } else if n == 2 {
        "2"@
    } else if n == 3 {
        "3"@
    } else if n == 4 {
        "4"@
    } else if n == 5 {
        "5"@
    } else if n == 6 {
        "6"@
    } else if n == 7 {
        "7"@
    } else if n == 8 {
        "8"@
    } else {
        "9"@
    }
}

/// A number in decimal digits.
pub open spec fn decimal(n: nat) -> Seq<char>
    decreases n,
{
    if n < 10 {
        digit(n)
    } else {
        decimal(n / 10) + digit(n % 10)
    }
}

fn digit_text(n: usize) -> (r: &'static str)
    requires
        n < 10,
    ensures
        r@ == digit(n as nat),
{
    match n {
        0 => "0",
        1 => "1",
        2 => "2",
        3 => "3",
        4 => "4",
        5 => "5",
        6 => "6",
        7 => "7",
        8 => "8",
        _ => "9",
    }
}

/// A number in decimal digits.
pub fn decimal_text(n: usize) -> (r: String)
    ensures
        r@ == decimal(n as nat),
    decreases n,
{
    if n < 10 {
        digit_text(n).to_owned()
    } else {
        let mut r = decimal_text(n / 10);
        r.append(digit_text(n % 10));
        r
    }
}

/// What the table says of a status.
pub open spec fn status_label(s: Status) -> Seq<char> {
    match s {
        Status::Done => "\u{2705} done"@,
        Status::Stop => "\u{1f6d1} stop"@,
        Status::Run => "\u{26a1} run"@,
    }
}

/// The row of a download at a place of the table; rows are numbered from one.
pub open spec fn row_of(place: int, e: EntryModel) -> RowModel {
    RowModel {
        coloured: true,
        number: decimal((place + 1) as nat),
        progress: if e.completed {
            "100%"@
        } else {
            e.percent
        },
        progress_tone: if e.completed {
            Tone::Green
        } else {
            Tone::Cyan
        },
        progress_bold: e.completed,
        name: e.name,
        size: e.size,
        speed: e.speed,
        eta: e.eta,
        total_duration: e.total_duration,
        status: status_label(e.status),
        status_tone: if e.status is Stop {
            Tone::Red
        } else {
            Tone::Green
        },
        timestamp: e.timestamp,
    }
}

/// The row of a download at a place of the table.
pub fn table_row(place: usize, e: &DownloadEntry) -> (r: TableRow)
    requires
        place < usize::MAX,
    ensures
        r@ == row_of(place as int, e@),
{
    let (status, status_tone) = match e.status {
        Status::Done => ("\u{2705} done", Tone::Green),
        Status::Stop => ("\u{1f6d1} stop", Tone::Red),
        Status::Run => ("\u{26a1} run", Tone::Green),
    };
    TableRow {
        coloured: true,
        number: decimal_text(place + 1),
        progress: if e.completed {
            "100%".to_owned()
        } else {
            e.percent.clone()
        },
        progress_tone: if e.completed {
            Tone::Green
        } else {
            Tone::Cyan
        },
        progress_bold: e.completed,
        name: e.name.clone(),
        size: e.size.clone(),
        speed: e.speed.clone(),
        eta: e.eta.clone(),
        total_duration: e.total_duration.clone(),
        status: status.to_owned(),
        status_tone,
        timestamp: e.timestamp.clone(),
    }
}

/// The row that stands in a table without downloads.
pub open spec fn idle_row() -> RowModel {
    RowModel {
        coloured: false,
        number: "-"@,
        progress: "-"@,
        progress_tone: Tone::Plain,
        progress_bold: false,
        name: "Awaiting target stream transmission connection..."@,
        size: "-"@,
        speed: "-"@,
        eta: "-"@,
        total_duration: "-"@,
        status: "idle"@,
        status_tone: Tone::Plain,
        timestamp: "-"@,
    }
}

/// The row that stands in a table without downloads.
pub fn waiting_row() -> (r: TableRow)
    ensures
        r@ == idle_row(),
{
    TableRow {
        coloured: false,
        number: "-".to_owned(),
        progress: "-".to_owned(),
        progress_tone: Tone::Plain,
        progress_bold: false,
        name: "Awaiting target stream transmission connection...".to_owned(),
        size: "-".to_owned(),
        speed: "-".to_owned(),
        eta: "-".to_owned(),
        total_duration: "-".to_owned(),
        status: "idle".to_owned(),
        status_tone: Tone::Plain,
        timestamp: "-".to_owned(),
    }
}

/// The title of the table, with the number of downloads that are not completed.
pub fn table_title(active: usize) -> (r: String)
    ensures
        r@ == "\u{1f4e1} Live NTFY-IDM Monitor  ("@ + decimal(active as nat) + " active)"@,
{
    let mut r = "\u{1f4e1} Live NTFY-IDM Monitor  (".to_owned();
    r.append(decimal_text(active).as_str());
    r.append(" active)");
    r
}

/// How high the charts' part of the screen is: room for two charts and ten lines, but at most
/// half of the screen.
pub fn chart_area_height(chart_height: usize, screen_height: u16) -> (r: u16)
    requires
        chart_height * 2 + 10 <= usize::MAX,
    ensures
        r == if chart_height * 2 + 10 <= screen_height / 2 {
            chart_height * 2 + 10
        } else {
            (screen_height / 2) as int
        },
{
    let wanted: usize = chart_height * 2 + 10;
    let half: u16 = screen_height / 2;
    if wanted <= half as usize {
        wanted as u16
    } else {
        half
    }
}

/// What a row says of a download. The progress of one that is not completed is what it reported,
/// whatever its status; that of one that is completed is `100%`, in bold. Name, size, speed and
/// times are as reported.
pub proof fn rows_say_what_was_reported(place: int, e: EntryModel)
    requires
        place >= 0,
    ensures
        ({
            let r = row_of(place, e);
            &&& r.coloured
            &&& !e.completed ==> r.progress == e.percent && r.progress_tone == Tone::Cyan
                && !r.progress_bold
            &&& e.completed ==> r.progress == "100%"@ && r.progress_tone == Tone::Green
                && r.progress_bold
            &&& (e.completed <==> e.percent == "100%"@) ==> r.progress == e.percent
            &&& r.name == e.name
            &&& r.size == e.size
            &&& r.speed == e.speed
            &&& r.eta == e.eta
            &&& r.total_duration == e.total_duration
            &&& r.timestamp == e.timestamp
        }),
{
}

/// A row tells the status of its download in one of three ways, red where it has stopped.
pub proof fn rows_tell_the_status(place: int, e: EntryModel)
    requires
        place >= 0,
    ensures
        e.status is Run ==> row_of(place, e).status == "\u{26a1} run"@ && row_of(
            place,
            e,
        ).status_tone == Tone::Green,
        e.status is Stop ==> row_of(place, e).status == "\u{1f6d1} stop"@ && row_of(
            place,
            e,
        ).status_tone == Tone::Red,
        e.status is Done ==> row_of(place, e).status == "\u{2705} done"@ && row_of(
            place,
            e,
        ).status_tone == Tone::Green,
{
}

/// The number that decimal digits stand for.
pub open spec fn value_of(digits: Seq<char>) -> int
    decreases digits.len(),
{
    if digits.len() == 0 {
        0
    } else {
        10 * value_of(digits.drop_last()) + (digits.last() as u32 - '0' as u32)
    }
}

/// A number is written in decimal digits that stand for it, without a zero before them.
pub proof fn decimal_digits_stand_for_the_number(n: nat)
    ensures
        value_of(decimal(n)) == n,
        decimal(n).len() > 0,
        forall|i: int| 0 <= i < decimal(n).len() ==> '0' <= #[trigger] decimal(n)[i] <= '9',
        n > 0 ==> decimal(n)[0] != '0',
    decreases n,
{
    lemma_digit(n % 10);
    if n < 10 {
        lemma_digit(n);
        assert(digit(n).drop_last() == Seq::<char>::empty());
        assert(value_of(digit(n).drop_last()) == 0);
    } else {
        decimal_digits_stand_for_the_number(n / 10);
        assert(decimal(n).drop_last() == decimal(n / 10));
        assert(decimal(n).last() == digit(n % 10)[0]);
        assert forall|i: int| 0 <= i < decimal(n).len() implies '0' <= #[trigger] decimal(n)[i]
            <= '9' by {
            if i < decimal(n).len() - 1 {
                assert(decimal(n)[i] == decimal(n / 10)[i]);
            }
        }
    }
}

proof fn lemma_digit(n: nat)
    requires
        n < 10,
    ensures
        digit(n).len() == 1,
        digit(n)[0] as u32 == '0' as u32 + n,
        '0' <= digit(n)[0] <= '9',
        n > 0 ==> digit(n)[0] != '0',
{
    reveal_strlit("0");
    reveal_strlit("1");
    reveal_strlit("2");
    reveal_strlit("3");
    reveal_strlit("4");
    reveal_strlit("5");
    reveal_strlit("6");
    reveal_strlit("7");
    reveal_strlit("8");
    reveal_strlit("9");
}

/// The number of a row is its place, counted from one.
pub proof fn rows_are_numbered_from_one(place: nat, e: EntryModel)
    ensures
        value_of(row_of(place as int, e).number) == place + 1,
        row_of(place as int, e).number.len() > 0,
        row_of(place as int, e).number[0] != '0',
        forall|i: int|
            0 <= i < row_of(place as int, e).number.len() ==> '0' <= #[trigger] row_of(
                place as int,
                e,
            ).number[i] <= '9',
{
    decimal_digits_stand_for_the_number(place + 1);
}

} // verus!
