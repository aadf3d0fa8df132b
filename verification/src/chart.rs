//! The text of the speed charts: which series are charted, how wide, how high, in which order,
//! and what stands around each.

use vstd::prelude::*;

use crate::text;

verus! {

use crate::message::text_of;
use crate::text::{joined, texts};
use vstd::utf8::{decode_utf8, encode_utf8, encode_utf8_decode_utf8, is_char_boundary};

/// How many downloads have a chart of their own.
pub const TOP_K_CHARTS: usize = 6;

/// How many throughputs are listed in place of a chart.
pub const RECENT_THROUGHPUTS: usize = 8;

/// How many speeds of a download are listed in place of a chart.
pub const RECENT_SPEEDS: usize = 6;

/// How many columns the throughput's chart has on a terminal with `term_cols`.
pub open spec fn global_cols(term_cols: u16) -> int {
    left_over(term_cols as int, 18, 10)
}

/// How many columns a download's chart has on a terminal with `term_cols`.
pub open spec fn file_cols(term_cols: u16) -> int {
    left_over(term_cols as int, 16, 10)
}

/// How wide and how high the charts are.
#[derive(Debug, Clone, Copy)]
pub struct ChartLayout {
    pub global_cols: usize,
    pub global_height: usize,
    pub file_cols: usize,
    pub file_height: usize,
}

/// `a - b` where that is at least `least`, else `least`.
pub open spec fn left_over(a: int, b: int, least: int) -> int {
    if a - b >= least {
        a - b
    } else {
        least
    }
}

/// The room for charts on a terminal with `term_cols` columns. The throughput leaves 18 columns
/// free, a download 16; no chart has fewer than ten. A download's chart is a line lower than
/// the throughput's, or two lines high where that is less than three.
pub fn chart_layout(term_cols: u16, chart_height: usize) -> (r: ChartLayout)
    ensures
        r.global_cols == global_cols(term_cols),
        r.global_height == chart_height,
        r.file_cols == file_cols(term_cols),
        r.file_height == left_over(chart_height as int, 1, 2),
        r.global_cols == if term_cols >= 28 {
            term_cols - 18
        } else {
            10
        },
        r.file_cols == if term_cols >= 26 {
            term_cols - 16
        } else {
            10
        },
        r.file_height == if chart_height >= 3 {
            chart_height - 1
        } else {
            2
        },
{
    let cols: usize = term_cols as usize;
    ChartLayout {
        global_cols: if cols >= 28 {
            cols - 18
        } else {
            10
        },
        global_height: chart_height,
        file_cols: if cols >= 26 {
            cols - 16
        } else {
            10
        },
        file_height: if chart_height >= 3 {
            chart_height - 1
        } else {
            2
        },
    }
}

/// Which samples of a series are shown.
#[derive(Debug, Clone, Copy)]
pub struct SeriesView {
    /// Where the charted samples begin.
    pub start: usize,
    /// Whether the charted samples make a chart.
    pub plotted: bool,
    /// Where the samples begin that are listed in place of a chart.
    pub listed: usize,
}

/// Tells whether `len` samples make a chart on `cols` columns: two or more are charted.
pub open spec fn makes_chart(len: int, cols: int) -> bool {
    len - left_over(len, cols, 0) >= 2
}

/// Which of `len` samples are shown on `cols` columns: the last that fit, as a chart where they
/// are two or more; in place of a chart the last `recent` are listed.
pub fn series_view(len: usize, cols: usize, recent: usize) -> (r: SeriesView)
    ensures
        r.start == left_over(len as int, cols as int, 0),
        r.plotted == makes_chart(len as int, cols as int),
        r.listed == left_over(len as int, recent as int, 0),
        len <= cols ==> r.start == 0,
        len > cols ==> r.start + cols == len,
        r.plotted <==> len >= 2 && cols >= 2,
        len <= recent ==> r.listed == 0,
        len > recent ==> r.listed + recent == len,
{
    let start: usize = if len >= cols {
        len - cols
    } else {
        0
    };
    let listed: usize = if len >= recent {
        len - recent
    } else {
        0
    };
    SeriesView { start, plotted: len - start >= 2, listed }
}

/// Tells whether the series number `i` comes before number `j`: its key is larger, or they are
/// equal and it comes first.
pub open spec fn ranks_before(keys: Seq<u64>, i: int, j: int) -> bool {
    keys[i] > keys[j] || (keys[i] == keys[j] && i < j)
}

/// Tells whether `order` is the numbers from 0 to `n`, the highest rank first.
pub open spec fn is_ranking(keys: Seq<u64>, order: Seq<usize>, n: int) -> bool {
    &&& order.len() == n
    &&& forall|i: int| 0 <= i < n ==> 0 <= #[trigger] order[i] < n
    &&& forall|k: usize| 0 <= k < n ==> #[trigger] order.contains(k)
    &&& forall|i: int, j: int|
        0 <= i < j < n ==> ranks_before(
            keys,
            #[trigger] order[i] as int,
            #[trigger] order[j] as int,
        )
}

/// The numbers of the series, the one with the largest key first; of equal keys the first comes
/// first.
pub fn rank(keys: &Vec<u64>) -> (r: Vec<usize>)
    ensures
        is_ranking(keys@, r@, keys@.len() as int),
{
    let n: usize = keys.len();
    let mut order: Vec<usize> = Vec::new();
    let mut i: usize = 0;
    while i < n
        invariant
            i <= n,
            n == keys@.len(),
            is_ranking(keys@, order@, i as int),
        decreases n - i,
    {
        let ghost before = order@;
        let mut p: usize = 0;
        while p < i && keys[order[p]] >= keys[i]
            invariant
                p <= i,
                i < n,
                n == keys@.len(),
                order@ == before,
                is_ranking(keys@, before, i as int),
                forall|j: int| 0 <= j < p ==> keys@[#[trigger] before[j] as int] >= keys@[i as int],
            decreases i - p,
        {
            p = p + 1;
        }
        order.insert(p, i);
        proof {
            lemma_rank_insert(keys@, before, i, p as int);
        }
        i = i + 1;
    }
    order
}

proof fn lemma_rank_insert(keys: Seq<u64>, order: Seq<usize>, i: usize, p: int)
    requires
        i < keys.len(),
        is_ranking(keys, order, i as int),
        0 <= p <= i,
        forall|j: int| 0 <= j < p ==> keys[#[trigger] order[j] as int] >= keys[i as int],
        p < i ==> keys[order[p] as int] < keys[i as int],
    ensures
        is_ranking(keys, order.insert(p, i), i + 1),
{
    let longer = order.insert(p, i);
    assert forall|a: int| 0 <= a < i + 1 implies 0 <= #[trigger] longer[a] < i + 1 by {
        if a < p {
            assert(longer[a] == order[a]);
        } else if a > p {
            assert(longer[a] == order[a - 1]);
        }
    }
    assert forall|k: usize| 0 <= k < i + 1 implies #[trigger] longer.contains(k) by {
        if k == i {
            assert(longer[p] == k);
        } else {
            assert(order.contains(k));
            let a = choose|a: int| 0 <= a < order.len() && order[a] == k;
            if a < p {
                assert(longer[a] == k);
            } else {
                assert(longer[a + 1] == k);
            }
        }
    }
    assert forall|a: int, b: int| 0 <= a < b < i + 1 implies ranks_before(
        keys,
        #[trigger] longer[a] as int,
        #[trigger] longer[b] as int,
    ) by {
        let a0 = if a < p { a } else { a - 1 };
        let b0 = if b < p { b } else { b - 1 };
        if a != p {
            assert(longer[a] == order[a0]);
        }
        if b != p {
            assert(longer[b] == order[b0]);
        }
        if a == p {
            if p < b0 {
                assert(ranks_before(keys, order[p] as int, order[b0] as int));
            }
        }
    }
}

/// There is one ranking: the keys decide it.
pub proof fn ranking_is_unique(keys: Seq<u64>, a: Seq<usize>, b: Seq<usize>, n: int)
    requires
        is_ranking(keys, a, n),
        is_ranking(keys, b, n),
    ensures
        a == b,
{
    assert forall|i: int| 0 <= i < n implies a[i] == b[i] by {
        lemma_ranking_at(keys, a, b, n, i);
    }
}

proof fn lemma_ranking_at(keys: Seq<u64>, a: Seq<usize>, b: Seq<usize>, n: int, i: int)
    requires
        is_ranking(keys, a, n),
        is_ranking(keys, b, n),
        0 <= i < n,
    ensures
        a[i] == b[i],
    decreases i,
{
    assert forall|j: int| 0 <= j < i implies a[j] == b[j] by {
        lemma_ranking_at(keys, a, b, n, j);
    }
    assert(b.contains(a[i]));
    let q = choose|q: int| 0 <= q < b.len() && b[q] == a[i];
    assert(a.contains(b[i]));
    let p = choose|p: int| 0 <= p < a.len() && a[p] == b[i];
    if q < i {
        assert(a[q] == a[i]);
        assert(ranks_before(keys, a[q] as int, a[i] as int));
    }
    if p < i {
        assert(b[p] == b[i]);
        assert(ranks_before(keys, b[p] as int, b[i] as int));
    }
    if q > i && p > i {
        assert(ranks_before(keys, b[i] as int, b[q] as int));
        assert(ranks_before(keys, a[i] as int, a[p] as int));
    }
}

/// A number has its place in a ranking of those before it.
proof fn lemma_rank_place(keys: Seq<u64>, order: Seq<usize>, i: usize, p: int, n: int)
    requires
        n == i + 1,
        i < keys.len(),
        is_ranking(keys, order, i as int),
        0 <= p <= i,
        forall|j: int| 0 <= j < p ==> keys[#[trigger] order[j] as int] >= keys[i as int],
    ensures
        exists|longer: Seq<usize>| is_ranking(keys, longer, n),
    decreases i - p,
{
    if p < i && keys[order[p] as int] >= keys[i as int] {
        lemma_rank_place(keys, order, i, p + 1, n);
    } else {
        lemma_rank_insert(keys, order, i, p);
    }
}

proof fn lemma_ranking_exists(keys: Seq<u64>, n: nat)
    requires
        n <= keys.len(),
        n <= usize::MAX,
    ensures
        exists|order: Seq<usize>| is_ranking(keys, order, n as int),
    decreases n,
{
    if n == 0 {
        assert(is_ranking(keys, Seq::<usize>::empty(), 0));
    } else {
        let i = (n - 1) as usize;
        lemma_ranking_exists(keys, i as nat);
        let order = choose|order: Seq<usize>| is_ranking(keys, order, i as int);
        lemma_rank_place(keys, order, i, 0, n as int);
    }
}

/// The numbers of the series, the highest rank first.
pub open spec fn ranking(keys: Seq<u64>) -> Seq<usize> {
    choose|order: Seq<usize>| is_ranking(keys, order, keys.len() as int)
}

/// The numbers of the series that have a chart of their own: of all in their ranks the first
/// [`TOP_K_CHARTS`].
pub open spec fn charted(keys: Seq<u64>) -> Seq<usize> {
    if ranking(keys).len() < TOP_K_CHARTS {
        ranking(keys)
    } else {
        ranking(keys).take(TOP_K_CHARTS as int)
    }
}

/// The series with the numbers in `order`.
pub open spec fn picked<A>(list: Seq<A>, order: Seq<usize>) -> Seq<A> {
    order.map_values(|k: usize| list[k as int])
}

/// As many series are charted as may be, or all; the one with the largest key comes first, of
/// equal keys the first; no other has a larger key than one of them.
pub proof fn largest_are_charted(keys: Seq<u64>)
    requires
        keys.len() <= usize::MAX,
    ensures
        is_ranking(keys, ranking(keys), keys.len() as int),
        charted(keys).len() == if keys.len() < TOP_K_CHARTS {
            keys.len()
        } else {
            TOP_K_CHARTS as nat
        },
        forall|i: int| 0 <= i < charted(keys).len() ==> (#[trigger] charted(keys)[i]) < keys.len(),
        forall|i: int, j: int|
            0 <= i < j < charted(keys).len() ==> ranks_before(
                keys,
                #[trigger] charted(keys)[i] as int,
                #[trigger] charted(keys)[j] as int,
            ),
        forall|i: int, k: usize|
            0 <= i < charted(keys).len() && k < keys.len() && !charted(keys).contains(k)
                ==> #[trigger] ranks_before(keys, charted(keys)[i] as int, k as int),
{
    lemma_ranking_exists(keys, keys.len());
    let order = ranking(keys);
    let r = charted(keys);
    assert forall|i: int, k: usize|
        0 <= i < r.len() && k < keys.len() && !r.contains(k) implies #[trigger] ranks_before(
        keys,
        r[i] as int,
        k as int,
    ) by {
        assert(order.contains(k));
        let j = choose|j: int| 0 <= j < order.len() && order[j] == k;
        if j < r.len() {
            assert(r[j] == k);
        }
        assert(r[i] == order[i]);
    }
}

/// The numbers of the series that have a chart of their own, the one with the largest key first.
pub fn top_charts(keys: &Vec<u64>) -> (r: Vec<usize>)
    ensures
        r@ == charted(keys@),
        r@.len() == if keys@.len() < TOP_K_CHARTS {
            keys@.len()
        } else {
            TOP_K_CHARTS as nat
        },
        forall|i: int| 0 <= i < r@.len() ==> (#[trigger] r@[i]) < keys@.len(),
        forall|i: int, j: int|
            0 <= i < j < r@.len() ==> ranks_before(
                keys@,
                #[trigger] r@[i] as int,
                #[trigger] r@[j] as int,
            ),
        forall|i: int, k: usize|
            0 <= i < r@.len() && k < keys@.len() && !r@.contains(k) ==> #[trigger] ranks_before(
                keys@,
                r@[i] as int,
                k as int,
            ),
{
    let order = rank(keys);
    let mut r: Vec<usize> = Vec::new();
    let mut i: usize = 0;
    while i < order.len() && i < TOP_K_CHARTS
        invariant
            i <= order@.len(),
            i <= TOP_K_CHARTS,
            r@ == order@.take(i as int),
        decreases order@.len() - i,
    {
        r.push(order[i]);
        assert(r@ == order@.take(i + 1));
        i = i + 1;
    }
    proof {
        largest_are_charted(keys@);
        ranking_is_unique(keys@, order@, ranking(keys@), keys@.len() as int);
        assert(r@ == charted(keys@));
    }
    r
}

/// Tells whether a name can be shown: it has at most 33 bytes, or can be cut after 30.
pub open spec fn is_showable(name: Seq<char>) -> bool {
    encode_utf8(name).len() > 33 ==> is_char_boundary(encode_utf8(name), 30)
}

/// A name as it stands over a chart: the first 30 bytes and three dots where it has more than 33.
pub open spec fn shortened(name: Seq<char>) -> Seq<char> {
    if encode_utf8(name).len() > 33 {
        decode_utf8(encode_utf8(name).subrange(0, 30)) + "..."@
    } else {
        name
    }
}

/// Tells whether a name can be shown: it has at most 33 bytes, or can be cut after 30.
pub fn can_show(name: &str) -> (r: bool)
    ensures
        r == is_showable(name@),
{
    name.as_bytes().len() <= 33 || name.is_char_boundary(30)
}

/// A name as it stands over a chart.
pub fn short_name(name: &str) -> (r: String)
    requires
        is_showable(name@),
    ensures
        r@ == shortened(name@),
{
    if name.as_bytes().len() > 33 {
        let (head, _) = name.split_at(30);
        proof {
            encode_utf8_decode_utf8(head@);
        }
        let mut r = head.to_owned();
        r.append("...");
        r
    } else {
        name.to_owned()
    }
}

/// The chart of a series.
#[derive(Debug)]
pub enum ChartBody {
    /// A drawn chart.
    Plot(String),
    /// The latest samples, where no chart could be drawn.
    Recent(Vec<String>),
}

/// What an optional chart stands for.
pub open spec fn body_of(body: Option<ChartBody>) -> Option<BodyModel> {
    match body {
        Some(b) => Some(b@),
        None => None,
    }
}

/// What a [`ChartBody`] stands for.
pub enum BodyModel {
    Plot(Seq<char>),
    Recent(Seq<Seq<char>>),
}

impl View for ChartBody {
    type V = BodyModel;

    open spec fn view(&self) -> BodyModel {
        match self {
            ChartBody::Plot(chart) => BodyModel::Plot(chart@),
            ChartBody::Recent(list) => BodyModel::Recent(texts(list@)),
        }
    }
}

/// The throughput's chart: none where its samples make no chart; the drawn one; or, where it could
/// not be drawn, the latest throughputs.
pub open spec fn global_body_of(
    plotted: bool,
    drawn: Option<Seq<char>>,
    recent: Seq<Seq<char>>,
) -> Option<BodyModel> {
    if !plotted {
        None
    } else {
        match drawn {
            Some(chart) => Some(BodyModel::Plot(chart)),
            None => Some(BodyModel::Recent(recent)),
        }
    }
}

/// A download's chart: the drawn one, where its samples make a chart; where that could not be
/// drawn, the latest speeds in their units; where they make none, the latest as plain numbers.
pub open spec fn file_body_of(
    plotted: bool,
    drawn: Option<Seq<char>>,
    in_units: Seq<Seq<char>>,
    plain: Seq<Seq<char>>,
) -> BodyModel {
    if !plotted {
        BodyModel::Recent(plain)
    } else {
        match drawn {
            Some(chart) => BodyModel::Plot(chart),
            None => BodyModel::Recent(in_units),
        }
    }
}

/// The throughput's chart, as [`global_body_of`] says.
pub fn global_body(plotted: bool, drawn: Option<String>, recent: Vec<String>) -> (r: Option<
    ChartBody,
>)
    ensures
        body_of(r) == global_body_of(plotted, text_of(drawn), texts(recent@)),
{
    if !plotted {
        return None;
    }
    match drawn {
        Some(chart) => Some(ChartBody::Plot(chart)),
        None => Some(ChartBody::Recent(recent)),
    }
}

/// A download's chart, as [`file_body_of`] says.
pub fn file_body(
    plotted: bool,
    drawn: Option<String>,
    in_units: Vec<String>,
    plain: Vec<String>,
) -> (r: ChartBody)
    ensures
        r@ == file_body_of(plotted, text_of(drawn), texts(in_units@), texts(plain@)),
{
    if !plotted {
        return ChartBody::Recent(plain);
    }
    match drawn {
        Some(chart) => ChartBody::Plot(chart),
        None => ChartBody::Recent(in_units),
    }
}

/// The throughputs as they are to be shown.
#[derive(Debug)]
pub struct GlobalSeries {
    /// How many samples there are.
    pub len: usize,
    /// The chart, where one was drawn.
    pub drawn: Option<String>,
    /// The latest samples, in their units.
    pub recent: Vec<String>,
}

/// What a [`GlobalSeries`] stands for.
pub struct GlobalModel {
    pub len: int,
    pub drawn: Option<Seq<char>>,
    pub recent: Seq<Seq<char>>,
}

impl View for GlobalSeries {
    type V = GlobalModel;

    open spec fn view(&self) -> GlobalModel {
        GlobalModel {
            len: self.len as int,
            drawn: text_of(self.drawn),
            recent: texts(self.recent@),
        }
    }
}

/// The speeds of a download as they are to be shown.
#[derive(Debug)]
pub struct FileSeries {
    pub name: String,
    /// The latest speed, without the `/s`.
    pub latest: String,
    /// How many samples there are.
    pub len: usize,
    /// The chart, where one was drawn.
    pub drawn: Option<String>,
    /// The latest samples, in their units.
    pub in_units: Vec<String>,
    /// The latest samples as plain numbers.
    pub plain: Vec<String>,
}

/// What a [`FileSeries`] stands for.
pub struct SeriesModel {
    pub name: Seq<char>,
    pub latest: Seq<char>,
    pub len: int,
    pub drawn: Option<Seq<char>>,
    pub in_units: Seq<Seq<char>>,
    pub plain: Seq<Seq<char>>,
}

impl View for FileSeries {
    type V = SeriesModel;

    open spec fn view(&self) -> SeriesModel {
        SeriesModel {
            name: self.name@,
            latest: self.latest@,
            len: self.len as int,
            drawn: text_of(self.drawn),
            in_units: texts(self.in_units@),
            plain: texts(self.plain@),
        }
    }
}

/// What is drawn and written of the speeds of a download.
#[derive(Debug)]
pub struct Drawing {
    /// The latest speed, without the `/s`.
    pub latest: String,
    /// The chart, where one was drawn.
    pub drawn: Option<String>,
    /// The latest samples, in their units.
    pub in_units: Vec<String>,
    /// The latest samples as plain numbers.
    pub plain: Vec<String>,
}

/// What a [`Drawing`] stands for.
pub struct DrawingModel {
    pub latest: Seq<char>,
    pub drawn: Option<Seq<char>>,
    pub in_units: Seq<Seq<char>>,
    pub plain: Seq<Seq<char>>,
}

impl View for Drawing {
    type V = DrawingModel;

    open spec fn view(&self) -> DrawingModel {
        DrawingModel {
            latest: self.latest@,
            drawn: text_of(self.drawn),
            in_units: texts(self.in_units@),
            plain: texts(self.plain@),
        }
    }
}

/// What a list of drawings stands for.
pub open spec fn drawing_list(list: Seq<Drawing>) -> Seq<DrawingModel> {
    list.map_values(|d: Drawing| d@)
}

/// The series of a download with `len` samples.
pub open spec fn drawn_series(name: Seq<char>, len: int, d: DrawingModel) -> SeriesModel {
    SeriesModel {
        name,
        latest: d.latest,
        len,
        drawn: d.drawn,
        in_units: d.in_units,
        plain: d.plain,
    }
}

/// What a list of series stands for.
pub open spec fn file_series(list: Seq<FileSeries>) -> Seq<SeriesModel> {
    list.map_values(|s: FileSeries| s@)
}

/// The chart of a download.
#[derive(Debug)]
pub struct FileChart {
    pub name: String,
    /// The latest speed, without the `/s`.
    pub latest: String,
    pub body: ChartBody,
}

/// What a [`FileChart`] stands for.
pub struct FileModel {
    pub name: Seq<char>,
    pub latest: Seq<char>,
    pub body: BodyModel,
}

impl View for FileChart {
    type V = FileModel;

    open spec fn view(&self) -> FileModel {
        FileModel { name: self.name@, latest: self.latest@, body: self.body@ }
    }
}

/// What a list of charts stands for.
pub open spec fn file_charts(list: Seq<FileChart>) -> Seq<FileModel> {
    list.map_values(|c: FileChart| c@)
}

/// The part of the text over the throughput's chart.
pub open spec fn global_title(unit: Seq<char>, max: Seq<char>) -> Seq<char> {
    "Global throughput ("@ + unit + "/s)  max "@ + max + "/s"@
}

/// The part of the text with the throughput's chart; a notice where there are too few samples.
pub open spec fn global_part(body: Option<BodyModel>) -> Seq<char> {
    match body {
        Some(BodyModel::Plot(chart)) => chart,
        Some(BodyModel::Recent(list)) => joined(list, ", "@),
        None => "  Collecting metrics tracking telemetry sequences..."@,
    }
}

/// The part of the text with a download's chart.
pub open spec fn file_part(c: FileModel) -> Seq<char> {
    let head = shortened(c.name) + " ("@ + c.latest + "/s)"@;
    match c.body {
        BodyModel::Plot(chart) => head + "\n"@ + chart,
        BodyModel::Recent(list) => head + ": "@ + joined(list, ", "@),
    }
}

/// The parts of the text: the throughput, and, where there are downloads to chart, their title
/// and their charts.
pub open spec fn chart_parts(
    unit: Seq<char>,
    max: Seq<char>,
    body: Option<BodyModel>,
    files: Seq<FileModel>,
) -> Seq<Seq<char>> {
    let first = seq![global_title(unit, max), global_part(body)];
    if files.len() == 0 {
        first
    } else {
        first + seq!["\nTop file speeds ("@ + unit + "/s)"@] + files.map_values(
            |c: FileModel| file_part(c),
        )
    }
}

fn file_text(c: &FileChart) -> (r: String)
    requires
        is_showable(c@.name),
    ensures
        r@ == file_part(c@),
{
    let mut r = short_name(c.name.as_str());
    r.append(" (");
    r.append(c.latest.as_str());
    r.append("/s)");
    match &c.body {
        ChartBody::Plot(chart) => {
            r.append("\n");
            r.append(chart.as_str());
        },
        ChartBody::Recent(list) => {
            r.append(": ");
            r.append(text::join(list, ", ").as_str());
        },
    }
    r
}

/// The throughput's chart on a terminal with `term_cols` columns.
pub open spec fn global_on(term_cols: u16, g: GlobalModel) -> Option<BodyModel> {
    global_body_of(makes_chart(g.len, global_cols(term_cols)), g.drawn, g.recent)
}

/// A download's chart on a terminal with `term_cols` columns.
pub open spec fn file_on(term_cols: u16, s: SeriesModel) -> FileModel {
    FileModel {
        name: s.name,
        latest: s.latest,
        body: file_body_of(makes_chart(s.len, file_cols(term_cols)), s.drawn, s.in_units, s.plain),
    }
}

/// The text of the charts on a terminal with `term_cols` columns.
pub open spec fn text_on(
    term_cols: u16,
    unit: Seq<char>,
    max: Seq<char>,
    global: GlobalModel,
    files: Seq<SeriesModel>,
) -> Seq<char> {
    joined(
        chart_parts(
            unit,
            max,
            global_on(term_cols, global),
            files.map_values(|s: SeriesModel| file_on(term_cols, s)),
        ),
        "\n\n"@,
    )
}

/// A download's chart on a terminal with `term_cols` columns.
pub fn file_chart(term_cols: u16, s: &FileSeries) -> (r: FileChart)
    ensures
        r@ == file_on(term_cols, s@),
{
    // The chart is drawn already: only the columns matter here.
    let layout = chart_layout(term_cols, 0);
    let view = series_view(s.len, layout.file_cols, RECENT_SPEEDS);
    let drawn = match &s.drawn {
        Some(chart) => Some(chart.clone()),
        None => None,
    };
    let body = file_body(view.plotted, drawn, text::copies(&s.in_units), text::copies(&s.plain));
    FileChart { name: s.name.clone(), latest: s.latest.clone(), body }
}

/// The text of the charts on a terminal with `term_cols` columns. `unit` is the unit of all charts
/// and `max` the largest throughput, both without the `/s`. `files` are the downloads' series;
/// those with the largest keys are charted, the largest first.
pub fn build_chart_text(
    term_cols: u16,
    unit: &str,
    max: &str,
    global: GlobalSeries,
    keys: &Vec<u64>,
    files: &Vec<FileSeries>,
) -> (r: String)
    requires
        keys@.len() == files@.len(),
        forall|i: int|
            0 <= i < charted(keys@).len() ==> is_showable(
                files@[#[trigger] charted(keys@)[i] as int]@.name,
            ),
    ensures
        r@ == text_on(
            term_cols,
            unit@,
            max@,
            global@,
            picked(file_series(files@), charted(keys@)),
        ),
{
    let layout = chart_layout(term_cols, 0);
    let view = series_view(global.len, layout.global_cols, RECENT_THROUGHPUTS);
    let body = global_body(view.plotted, global.drawn, global.recent);
    let order = top_charts(keys);
    let ghost all = picked(file_series(files@), order@);
    let ghost on = |s: SeriesModel| file_on(term_cols, s);
    let mut charts: Vec<FileChart> = Vec::new();
    let n: usize = order.len();
    let mut i: usize = 0;
    assert(file_charts(charts@) == all.take(0).map_values(on));
    while i < n
        invariant
            i <= n,
            n == order@.len(),
            charts@.len() == i,
            order@ == charted(keys@),
            all == picked(file_series(files@), order@),
            on == (|s: SeriesModel| file_on(term_cols, s)),
            forall|j: int| 0 <= j < n ==> (#[trigger] order@[j]) < files@.len(),
            forall|j: int|
                0 <= j < charted(keys@).len() ==> is_showable(
                    files@[#[trigger] charted(keys@)[j] as int]@.name,
                ),
            forall|j: int| 0 <= j < i ==> is_showable((#[trigger] charts@[j])@.name),
            file_charts(charts@) == all.take(i as int).map_values(on),
        decreases n - i,
    {
        let ghost before = charts@;
        let k: usize = order[i];
        assert(k == charted(keys@)[i as int]);
        charts.push(file_chart(term_cols, &files[k]));
        proof {
            assert(all[i as int] == files@[k as int]@);
            assert(file_charts(charts@) == file_charts(before).push(on(all[i as int])));
            assert(all.take(i + 1).map_values(on) == all.take(i as int).map_values(on).push(
                on(all[i as int]),
            ));
        }
        i = i + 1;
    }
    assert(all.take(n as int) == all);
    join_charts(unit, max, &body, &charts)
}

/// The charts as one text. `unit` is the unit of all charts and `max` the largest throughput,
/// both without the `/s`; `body` is the throughput's chart, none where it has too few samples;
/// `files` are the downloads' charts in their order.
pub fn join_charts(
    unit: &str,
    max: &str,
    body: &Option<ChartBody>,
    files: &Vec<FileChart>,
) -> (r: String)
    requires
        forall|i: int| 0 <= i < files@.len() ==> is_showable((#[trigger] files@[i])@.name),
    ensures
        r@ == joined(
            chart_parts(unit@, max@, body_of(*body), file_charts(files@)),
            "\n\n"@,
        ),
{
    let mut title = "Global throughput (".to_owned();
    title.append(unit);
    title.append("/s)  max ");
    title.append(max);
    title.append("/s");
    let global = match body {
        Some(ChartBody::Plot(chart)) => chart.clone(),
        Some(ChartBody::Recent(list)) => text::join(list, ", "),
        None => "  Collecting metrics tracking telemetry sequences...".to_owned(),
    };
    let ghost first = seq![global_title(unit@, max@), global_part(body_of(*body))];
    let mut parts: Vec<String> = Vec::new();
    parts.push(title);
    parts.push(global);
    assert(texts(parts@) == first);
    let n: usize = files.len();
    if n > 0 {
        let mut head = "\nTop file speeds (".to_owned();
        head.append(unit);
        head.append("/s)");
        let ghost headed = first + seq!["\nTop file speeds ("@ + unit@ + "/s)"@];
        let ghost fs = file_charts(files@);
        let ghost f = |c: FileModel| file_part(c);
        parts.push(head);
        assert(texts(parts@) == headed);
        let mut i: usize = 0;
        assert(texts(parts@) == headed + fs.take(0).map_values(f));
        while i < n
            invariant
                i <= n,
                n == files@.len(),
                fs == file_charts(files@),
                f == (|c: FileModel| file_part(c)),
                forall|i: int| 0 <= i < files@.len() ==> is_showable((#[trigger] files@[i])@.name),
                texts(parts@) == headed + fs.take(i as int).map_values(f),
            decreases n - i,
        {
            let ghost before = parts@;
            parts.push(file_text(&files[i]));
            proof {
                assert(texts(parts@) == texts(before).push(file_part(fs[i as int])));
                assert(fs.take(i + 1).map_values(f) == fs.take(i as int).map_values(f).push(
                    file_part(fs[i as int]),
                ));
                assert(texts(parts@) == headed + fs.take(i + 1).map_values(f));
            }
            i = i + 1;
        }
        assert(fs.take(n as int) == fs);
    }
    text::join(&parts, "\n\n")
}

/// Joined parts hold each part.
proof fn lemma_joined_holds(parts: Seq<Seq<char>>, sep: Seq<char>, i: int)
    requires
        0 <= i < parts.len(),
    ensures
        exists|p: int| #[trigger]
            stands_at(joined(parts, sep), parts[i], p),
    decreases parts.len(),
{
    let whole = joined(parts, sep);
    if parts.len() == 1 {
        assert(whole.subrange(0, whole.len() as int) == parts[i]);
        assert(stands_at(whole, parts[i], 0));
    } else {
        let head = joined(parts.drop_last(), sep);
        if i < parts.len() - 1 {
            lemma_joined_holds(parts.drop_last(), sep, i);
            let p = choose|p: int| #[trigger] stands_at(head, parts.drop_last()[i], p);
            assert(whole.subrange(p, p + parts[i].len()) == head.subrange(p, p + parts[i].len()));
            assert(stands_at(whole, parts[i], p));
        } else {
            let p = (head + sep).len() as int;
            assert(whole.subrange(p, p + parts[i].len()) == parts[i]);
            assert(stands_at(whole, parts[i], p));
        }
    }
}

/// Tells whether `part` stands in `whole` at `p`.
pub open spec fn stands_at(whole: Seq<char>, part: Seq<char>, p: int) -> bool {
    0 <= p && p + part.len() <= whole.len() && whole.subrange(p, p + part.len()) == part
}

/// Tells whether two series differ at most in what depends on the columns: in their charts, and in
/// the samples that are listed where a chart could not be drawn.
pub open spec fn same_samples(s: SeriesModel, t: SeriesModel) -> bool {
    s.name == t.name && s.latest == t.latest && s.len == t.len && s.plain == t.plain
}

/// Where no series has two samples, the columns do not matter to the text of the charts, and it
/// says that samples are still being collected.
pub proof fn few_samples_need_no_columns(
    a: u16,
    b: u16,
    unit: Seq<char>,
    max: Seq<char>,
    global_a: GlobalModel,
    global_b: GlobalModel,
    keys: Seq<u64>,
    files_a: Seq<SeriesModel>,
    files_b: Seq<SeriesModel>,
)
    requires
        0 <= global_a.len < 2,
        global_b.len == global_a.len,
        keys.len() <= usize::MAX,
        files_a.len() == keys.len(),
        files_b.len() == keys.len(),
        forall|i: int|
            0 <= i < files_a.len() ==> 0 <= (#[trigger] files_a[i]).len < 2 && same_samples(
                files_a[i],
                files_b[i],
            ),
    ensures
        ({
            let text_a = text_on(a, unit, max, global_a, picked(files_a, charted(keys)));
            let text_b = text_on(b, unit, max, global_b, picked(files_b, charted(keys)));
            let notice = "  Collecting metrics tracking telemetry sequences..."@;
            &&& text_a == text_b
            &&& exists|p: int| #[trigger] stands_at(text_a, notice, p)
        }),
{
    largest_are_charted(keys);
    let order = charted(keys);
    let pa = picked(files_a, order);
    let pb = picked(files_b, order);
    assert forall|i: int| 0 <= i < order.len() implies 0 <= (#[trigger] pa[i]).len < 2
        && same_samples(pa[i], pb[i]) by {
        assert(0 <= files_a[order[i] as int].len < 2);
    }
    lemma_few_samples(a, b, unit, max, global_a, global_b, pa, pb);
}

/// Where no charted series has two samples, the columns do not matter.
proof fn lemma_few_samples(
    a: u16,
    b: u16,
    unit: Seq<char>,
    max: Seq<char>,
    global_a: GlobalModel,
    global_b: GlobalModel,
    files_a: Seq<SeriesModel>,
    files_b: Seq<SeriesModel>,
)
    requires
        0 <= global_a.len < 2,
        global_b.len == global_a.len,
        files_b.len() == files_a.len(),
        forall|i: int|
            0 <= i < files_a.len() ==> 0 <= (#[trigger] files_a[i]).len < 2 && same_samples(
                files_a[i],
                files_b[i],
            ),
    ensures
        text_on(a, unit, max, global_a, files_a) == text_on(b, unit, max, global_b, files_b),
        exists|p: int| #[trigger]
            stands_at(
                text_on(a, unit, max, global_a, files_a),
                "  Collecting metrics tracking telemetry sequences..."@,
                p,
            ),
{
    let on_a = |s: SeriesModel| file_on(a, s);
    let on_b = |s: SeriesModel| file_on(b, s);
    assert forall|i: int| 0 <= i < files_a.len() implies #[trigger] files_a.map_values(on_a)[i]
        == files_b.map_values(on_b)[i] by {
        assert(same_samples(files_a[i], files_b[i]));
    }
    assert(files_a.map_values(on_a) == files_b.map_values(on_b));
    let parts = chart_parts(unit, max, global_on(a, global_a), files_a.map_values(on_a));
    assert(parts[1] == "  Collecting metrics tracking telemetry sequences..."@);
    lemma_joined_holds(parts, "\n\n"@, 1);
}

} // verus!
