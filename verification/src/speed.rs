//! Speeds as they are reported, and the units in which amounts are shown.

use regex::Regex;
use vstd::prelude::*;

use crate::text;

verus! {

use crate::text::is_space;

/// How a speed is written: a number, and a unit in capitals.
pub const SPEED_PATTERN: &'static str = "([0-9.]+)\\s*([KMG]?B(?:/S)?)";

/// A reported speed: the number as it was written, and the bytes in its unit. It stands for
/// their product, in bytes per second.
#[derive(Debug)]
pub struct Speed {
    pub digits: String,
    pub factor: u64,
}

/// What a [`Speed`] stands for.
pub struct SpeedModel {
    pub digits: Seq<char>,
    pub factor: u64,
}

impl View for Speed {
    type V = SpeedModel;

    open spec fn view(&self) -> SpeedModel {
        SpeedModel { digits: self.digits@, factor: self.factor }
    }
}

/// What a list of speeds stands for.
pub open spec fn speeds(list: Seq<Speed>) -> Seq<SpeedModel> {
    list.map_values(|s: Speed| s@)
}

/// Tells whether all characters of `s` are ASCII.
pub open spec fn all_ascii(s: Seq<char>) -> bool {
    forall|i: int| 0 <= i < s.len() ==> #[trigger] s[i] <= '\u{7f}'
}

/// An ASCII letter as a capital; any other character as it is.
pub open spec fn capital(c: char) -> char {
    if 'a' <= c <= 'z' {
        (c as u32 - 32) as char
    } else {
        c
    }
}

/// An ASCII letter as a small one; any other character as it is.
pub open spec fn small(c: char) -> char {
    if 'A' <= c <= 'Z' {
        (c as u32 + 32) as char
    } else {
        c
    }
}

/// The ASCII letters of `s` as capitals.
pub open spec fn capitals(s: Seq<char>) -> Seq<char> {
    s.map_values(|c: char| capital(c))
}

/// The ASCII letters of `s` as small ones.
pub open spec fn smalls(s: Seq<char>) -> Seq<char> {
    s.map_values(|c: char| small(c))
}

/// The text in capitals that `str::to_uppercase` makes of a text that is not all ASCII.
pub uninterp spec fn upper_of(s: Seq<char>) -> Seq<char>;

/// `s` in capitals.
pub open spec fn upper(s: Seq<char>) -> Seq<char> {
    if all_ascii(s) {
        capitals(s)
    } else {
        upper_of(s)
    }
}

/// `str::to_uppercase`: the text in capitals depends on the text alone; of ASCII the small letters
/// become capitals and nothing else changes.
#[verifier::external_body]
fn to_upper(s: &str) -> (r: String)
    ensures
        r@ == (if all_ascii(s@) {
            capitals(s@)
        } else {
            upper_of(s@)
        }),
{
    s.to_uppercase()
}

/// A character of a number.
pub open spec fn is_numeral(c: char) -> bool {
    '0' <= c <= '9' || c == '.'
}

/// Tells whether [`SPEED_PATTERN`] matches `t` with the number from `i` to `j`, white space from
/// there to `k`, and a unit from there whose `B` stands at `b`.
pub open spec fn speed_at(t: Seq<char>, i: int, j: int, k: int, b: int) -> bool {
    &&& 0 <= i < j <= k <= b < t.len()
    &&& forall|x: int| i <= x < j ==> is_numeral(#[trigger] t[x])
    &&& forall|x: int| j <= x < k ==> is_space(#[trigger] t[x])
    &&& k == b || (k + 1 == b && (t[k] == 'K' || t[k] == 'M' || t[k] == 'G'))
    &&& t[b] == 'B'
}

/// Tells whether that is the first match: no other begins before it.
pub open spec fn first_speed_at(t: Seq<char>, i: int, j: int, k: int, b: int) -> bool {
    &&& speed_at(t, i, j, k, b)
    &&& forall|i2: int, j2: int, k2: int, b2: int| #[trigger]
        speed_at(t, i2, j2, k2, b2) ==> i <= i2
}

/// Where a unit ends whose `B` stands at `b`: after the `/S` where that follows.
pub open spec fn unit_end(t: Seq<char>, b: int) -> int {
    if b + 2 < t.len() && t[b + 1] == '/' && t[b + 2] == 'S' {
        b + 3
    } else {
        b + 1
    }
}

/// The number and the unit of the first speed in `t`.
pub open spec fn first_speed(t: Seq<char>) -> Option<(Seq<char>, Seq<char>)> {
    if exists|i: int, j: int, k: int, b: int| first_speed_at(t, i, j, k, b) {
        let (i, j, k, b) = choose|i: int, j: int, k: int, b: int| first_speed_at(t, i, j, k, b);
        Some((t.subrange(i, j), t.subrange(k, unit_end(t, b))))
    } else {
        None
    }
}

/// `Regex::new` and `Regex::captures`, with [`SPEED_PATTERN`]: what the two groups of the leftmost
/// match hold, each repetition as long as can be; nothing where there is no match. White space is
/// Unicode's.
#[verifier::external_body]
fn two_groups(pattern: &str, text: &str) -> (r: Option<(String, String)>)
    requires
        pattern@ == SPEED_PATTERN@,
    ensures
        match r {
            Some(g) => first_speed(text@) == Some((g.0@, g.1@)),
            None => first_speed(text@) is None,
        },
{
    let groups = Regex::new(pattern).ok()?.captures(text)?;
    Some((groups.get(1)?.as_str().to_string(), groups.get(2)?.as_str().to_string()))
}

/// Tells whether `unit` holds `a` followed by `b`.
pub open spec fn has_pair(unit: Seq<char>, a: char, b: char) -> bool {
    exists|i: int| 0 <= i < unit.len() - 1 && #[trigger] unit[i] == a && unit[i + 1] == b
}

/// The bytes in a unit.
pub open spec fn bytes_in(unit: Seq<char>) -> u64 {
    if has_pair(unit, 'G', 'B') {
        0x4000_0000
    } else if has_pair(unit, 'M', 'B') {
        0x10_0000
    } else if has_pair(unit, 'K', 'B') {
        0x400
    } else {
        1
    }
}

/// The speed that a number and a unit make; no speed at all where there are none.
pub open spec fn speed_in(groups: Option<(Seq<char>, Seq<char>)>) -> SpeedModel {
    match groups {
        Some(g) => SpeedModel { digits: g.0, factor: bytes_in(g.1) },
        None => SpeedModel { digits: "0"@, factor: 1 },
    }
}

/// The speed that `s` tells.
pub open spec fn speed_of(s: Seq<char>) -> SpeedModel {
    speed_in(first_speed(upper(s)))
}

/// The bytes in a unit.
pub fn unit_factor(unit: &str) -> (r: u64)
    ensures
        r == bytes_in(unit@),
{
    if text::contains_pair(unit, 'G', 'B') {
        0x4000_0000
    } else if text::contains_pair(unit, 'M', 'B') {
        0x10_0000
    } else if text::contains_pair(unit, 'K', 'B') {
        0x400
    } else {
        1
    }
}

/// The speed that a number and a unit make; no speed at all where there are none.
pub fn speed_from(groups: Option<(String, String)>) -> (r: Speed)
    ensures
        r@ == speed_in(
            match groups {
                Some(g) => Some((g.0@, g.1@)),
                None => None,
            },
        ),
{
    match groups {
        Some((digits, unit)) => {
            let factor = unit_factor(unit.as_str());
            Speed { digits, factor }
        },
        None => Speed { digits: "0".to_owned(), factor: 1 },
    }
}

/// The speed that `s` tells.
pub fn parse_speed(s: &str) -> (r: Speed)
    ensures
        r@ == speed_of(s@),
{
    let upper = to_upper(s);
    speed_from(two_groups(SPEED_PATTERN, upper.as_str()))
}

impl Speed {
    /// The same speed once more.
    pub fn copy(&self) -> (r: Speed)
        ensures
            r@ == self@,
    {
        Speed { digits: self.digits.clone(), factor: self.factor }
    }
}

/// The signs of the units, each of 1024 times the one before.
pub open spec fn unit_sign(i: int) -> Seq<char> {
    if i <= 0 {
        "B"@
    } else if i == 1 {
        "KB"@
    } else if i == 2 {
        "MB"@
    } else if i == 3 {
        "GB"@
    } else if i == 4 {
        "TB"@
    } else {
        "PB"@
    }
}

/// The bytes in unit number `i`.
pub open spec fn unit_bytes(i: int) -> int
    decreases i,
{
    if i <= 0 {
        1
    } else {
        1024 * unit_bytes(i - 1)
    }
}

/// The number of the unit in which `bytes` whole bytes are shown: the first that they fill less
/// than 1024 times, and the sixth where there is none.
pub open spec fn unit_number(bytes: int) -> int {
    if bytes < unit_bytes(1) {
        0
    } else if bytes < unit_bytes(2) {
        1
    } else if bytes < unit_bytes(3) {
        2
    } else if bytes < unit_bytes(4) {
        3
    } else if bytes < unit_bytes(5) {
        4
    } else {
        5
    }
}

/// The number of the unit in which speeds up to `max` whole bytes per second are charted: the
/// largest up to the gigabyte that they fill.
pub open spec fn scale_number(max: int) -> int {
    if max >= unit_bytes(3) {
        3
    } else if max >= unit_bytes(2) {
        2
    } else if max >= unit_bytes(1) {
        1
    } else {
        0
    }
}

/// The unit in which speeds up to `max` whole bytes per second are charted: how many bytes it
/// has, and its sign.
pub fn choose_scale(max: u64) -> (r: (u64, &'static str))
    ensures
        r.0 == unit_bytes(scale_number(max as int)),
        r.1@ == unit_sign(scale_number(max as int)),
        max >= 0x4000_0000 ==> r.0 == 0x4000_0000 && r.1@ == "GB"@,
        0x10_0000 <= max < 0x4000_0000 ==> r.0 == 0x10_0000 && r.1@ == "MB"@,
        0x400 <= max < 0x10_0000 ==> r.0 == 0x400 && r.1@ == "KB"@,
        max < 0x400 ==> r.0 == 1 && r.1@ == "B"@,
{
    proof {
        reveal_with_fuel(unit_bytes, 4);
    }
    if max >= 0x4000_0000 {
        return (0x4000_0000, "GB");
    }
    if max >= 0x10_0000 {
        return (0x10_0000, "MB");
    }
    if max >= 0x400 {
        return (0x400, "KB");
    }
    (1, "B")
}

/// The unit in which `bytes` whole bytes are shown: how many bytes it has, and its sign.
pub fn size_unit(bytes: u64) -> (r: (u64, &'static str))
    ensures
        r.0 == unit_bytes(unit_number(bytes as int)),
        r.1@ == unit_sign(unit_number(bytes as int)),
{
    proof {
        reveal_with_fuel(unit_bytes, 6);
    }
    if bytes < 0x400 {
        (1, "B")
    } else if bytes < 0x10_0000 {
        (0x400, "KB")
    } else if bytes < 0x4000_0000 {
        (0x10_0000, "MB")
    } else if bytes < 0x100_0000_0000 {
        (0x4000_0000, "GB")
    } else if bytes < 0x4_0000_0000_0000 {
        (0x100_0000_0000, "TB")
    } else {
        (0x4_0000_0000_0000, "PB")
    }
}

/// An amount below the largest unit fills its unit at least once, unless that is the byte, and
/// less than 1024 times.
pub proof fn shown_amount_is_moderate(bytes: u64)
    requires
        bytes < unit_bytes(6),
    ensures
        unit_number(bytes as int) > 0 ==> bytes >= unit_bytes(unit_number(bytes as int)),
        bytes < 1024 * unit_bytes(unit_number(bytes as int)),
{
    reveal_with_fuel(unit_bytes, 7);
}

/// Below the terabyte an amount is shown in the unit in which it would be charted.
pub proof fn shown_unit_is_charted_unit(bytes: u64)
    requires
        bytes < unit_bytes(4),
    ensures
        unit_number(bytes as int) == scale_number(bytes as int),
{
    reveal_with_fuel(unit_bytes, 5);
}

/// 1024 times an amount of at least one byte is shown in the next unit, which has 1024 times the
/// bytes, and so with the same number; up to the largest unit. `more` is any amount whose share
/// of 1024 is, in whole bytes, `bytes`.
pub proof fn next_unit_is_1024_times(bytes: int, more: int)
    requires
        1 <= bytes < unit_bytes(5),
        1024 * bytes <= more < 1024 * (bytes + 1),
    ensures
        unit_number(more) == unit_number(bytes) + 1,
        unit_bytes(unit_number(more)) == 1024 * unit_bytes(unit_number(bytes)),
{
    reveal_with_fuel(unit_bytes, 7);
}

/// A match is fixed by where it begins.
proof fn lemma_speed_at_is_unique(
    t: Seq<char>,
    i: int,
    j: int,
    k: int,
    b: int,
    j2: int,
    k2: int,
    b2: int,
)
    requires
        speed_at(t, i, j, k, b),
        speed_at(t, i, j2, k2, b2),
    ensures
        j == j2,
        k == k2,
        b == b2,
{
    if j < j2 {
        assert(is_numeral(t[j]));
    }
    if j2 < j {
        assert(is_numeral(t[j2]));
    }
    if k < k2 {
        assert(is_space(t[k]));
    }
    if k2 < k {
        assert(is_space(t[k2]));
    }
}

/// Where there is a match there is a first one.
proof fn lemma_first_speed_exists(t: Seq<char>, i: int, j: int, k: int, b: int)
    requires
        speed_at(t, i, j, k, b),
    ensures
        first_speed(t) is Some,
    decreases i,
{
    if first_speed_at(t, i, j, k, b) {
    } else {
        let (i2, j2, k2, b2) = choose|i2: int, j2: int, k2: int, b2: int| #[trigger]
            speed_at(t, i2, j2, k2, b2) && i2 < i;
        lemma_first_speed_exists(t, i2, j2, k2, b2);
    }
}

/// The first match is the one that counts.
proof fn lemma_first_speed_is(t: Seq<char>, i: int, j: int, k: int, b: int)
    requires
        first_speed_at(t, i, j, k, b),
    ensures
        first_speed(t) == Some((t.subrange(i, j), t.subrange(k, unit_end(t, b)))),
{
    let (i2, j2, k2, b2) = choose|i2: int, j2: int, k2: int, b2: int|
        first_speed_at(t, i2, j2, k2, b2);
    assert(first_speed_at(t, i2, j2, k2, b2));
    assert(i == i2);
    lemma_speed_at_is_unique(t, i, j, k, b, j2, k2, b2);
}

/// The bytes in the unit of a match go by the character before the `B`.
proof fn lemma_bytes_at(t: Seq<char>, i: int, j: int, k: int, b: int)
    requires
        speed_at(t, i, j, k, b),
    ensures
        bytes_in(t.subrange(k, unit_end(t, b))) == if k == b {
            1u64
        } else if t[k] == 'G' {
            0x4000_0000
        } else if t[k] == 'M' {
            0x10_0000
        } else {
            0x400
        },
{
    let unit = t.subrange(k, unit_end(t, b));
    assert forall|x: int| 0 <= x < unit.len() implies #[trigger] unit[x] == t[k + x] by {}
    if k < b {
        assert(unit[0] == t[k] && unit[1] == 'B');
    }
}

/// Whether letters are capitals or small does not matter to a speed in ASCII.
pub proof fn letter_case_does_not_matter(s: Seq<char>)
    requires
        all_ascii(s),
    ensures
        speed_of(smalls(s)) == speed_of(s),
        speed_of(capitals(s)) == speed_of(s),
{
    assert(capitals(smalls(s)) == capitals(s));
    assert(capitals(capitals(s)) == capitals(s));
}

/// A unit that ends the text means the same with `/s` after it.
pub proof fn per_second_does_not_matter(s: Seq<char>)
    requires
        all_ascii(s),
        s.len() > 0,
        s.last() == 'B' || s.last() == 'b',
    ensures
        speed_of(s + "/s"@) == speed_of(s),
{
    reveal_strlit("/s");
    let longer = s + "/s"@;
    let n = s.len() as int;
    let t = capitals(s);
    let t2 = capitals(longer);
    assert(longer[n] == '/' && longer[n + 1] == 's');
    assert forall|i: int| 0 <= i < longer.len() implies #[trigger] longer[i] <= '\u{7f}' by {
        if i < s.len() {
            assert(longer[i] == s[i]);
        }
    }
    assert(t2.len() == t.len() + 2);
    assert forall|x: int| 0 <= x < t.len() implies #[trigger] t2[x] == t[x] by {}
    assert(t2[n] == '/' && t2[n + 1] == 'S');
    assert forall|i: int, j: int, k: int, b: int|
        #![trigger speed_at(t2, i, j, k, b)]
        #![trigger speed_at(t, i, j, k, b)]
        speed_at(t2, i, j, k, b) <==> speed_at(t, i, j, k, b) by {
        lemma_same_match(t, t2, i, j, k, b);
    }
    if exists|i: int, j: int, k: int, b: int| first_speed_at(t, i, j, k, b) {
        let (i, j, k, b) = choose|i: int, j: int, k: int, b: int| first_speed_at(t, i, j, k, b);
        assert(first_speed_at(t2, i, j, k, b));
        lemma_first_speed_is(t, i, j, k, b);
        lemma_first_speed_is(t2, i, j, k, b);
        lemma_bytes_at(t, i, j, k, b);
        lemma_bytes_at(t2, i, j, k, b);
        assert(t.subrange(i, j) == t2.subrange(i, j));
    } else {
        assert forall|i: int, j: int, k: int, b: int| !first_speed_at(t2, i, j, k, b) by {
            if first_speed_at(t2, i, j, k, b) {
                assert(first_speed_at(t, i, j, k, b));
            }
        }
    }
}

/// A longer text in which no `B` follows holds the same matches.
proof fn lemma_same_match(t: Seq<char>, t2: Seq<char>, i: int, j: int, k: int, b: int)
    requires
        t2.len() >= t.len(),
        forall|x: int| 0 <= x < t.len() ==> #[trigger] t2[x] == t[x],
        forall|x: int| t.len() <= x < t2.len() ==> #[trigger] t2[x] != 'B',
    ensures
        speed_at(t2, i, j, k, b) <==> speed_at(t, i, j, k, b),
{
    if speed_at(t2, i, j, k, b) {
        assert(b < t.len());
        assert forall|x: int| i <= x < j implies is_numeral(#[trigger] t[x]) by {
            assert(is_numeral(t2[x]));
        }
        assert forall|x: int| j <= x < k implies is_space(#[trigger] t[x]) by {
            assert(is_space(t2[x]));
        }
    }
    if speed_at(t, i, j, k, b) {
        assert forall|x: int| i <= x < j implies is_numeral(#[trigger] t2[x]) by {
            assert(is_numeral(t[x]));
        }
        assert forall|x: int| j <= x < k implies is_space(#[trigger] t2[x]) by {
            assert(is_space(t[x]));
        }
    }
}

/// A number right before a unit is a speed of that number and that unit.
proof fn lemma_number_and_unit(d: Seq<char>, unit: Seq<char>)
    requires
        d.len() > 0,
        forall|x: int| 0 <= x < d.len() ==> is_numeral(#[trigger] d[x]),
        unit == seq!['B'] || unit == seq!['K', 'B'] || unit == seq!['M', 'B'] || unit == seq![
            'G',
            'B',
        ],
    ensures
        speed_of(d + unit) == (SpeedModel {
            digits: d,
            factor: if unit[0] == 'G' {
                0x4000_0000
            } else if unit[0] == 'M' {
                0x10_0000
            } else if unit[0] == 'K' {
                0x400
            } else {
                1
            },
        }),
{
    let s = d + unit;
    let n = d.len() as int;
    let b = s.len() - 1;
    assert forall|x: int| 0 <= x < s.len() implies #[trigger] s[x] <= '\u{7f}' by {
        if x < n {
            assert(s[x] == d[x] && is_numeral(d[x]));
        } else {
            assert(s[x] == unit[x - n]);
        }
    }
    assert forall|x: int| 0 <= x < s.len() implies #[trigger] capitals(s)[x] == s[x] by {
        if x < n {
            assert(s[x] == d[x] && is_numeral(d[x]));
        } else {
            assert(s[x] == unit[x - n]);
        }
    }
    assert(capitals(s) == s);
    assert forall|x: int| 0 <= x < n implies is_numeral(#[trigger] s[x]) by {
        assert(s[x] == d[x]);
    }
    assert(s[n] == unit[0] && s[b] == unit.last());
    assert(speed_at(s, 0, n, n, b));
    assert(first_speed_at(s, 0, n, n, b));
    lemma_first_speed_is(s, 0, n, n, b);
    lemma_bytes_at(s, 0, n, n, b);
    assert(s.subrange(0, n) == d);
}

/// For the same number each unit makes a speed of 1024 times that of the unit before.
pub proof fn each_unit_is_1024_times_the_one_before(d: Seq<char>)
    requires
        d.len() > 0,
        forall|x: int| 0 <= x < d.len() ==> is_numeral(#[trigger] d[x]),
    ensures
        speed_of(d + "B"@) == (SpeedModel { digits: d, factor: 1 }),
        ({
            let b = speed_of(d + "B"@);
            let kb = speed_of(d + "KB"@);
            let mb = speed_of(d + "MB"@);
            let gb = speed_of(d + "GB"@);
            &&& kb.digits == b.digits && kb.factor == 1024 * b.factor
            &&& mb.digits == kb.digits && mb.factor == 1024 * kb.factor
            &&& gb.digits == mb.digits && gb.factor == 1024 * mb.factor
        }),
{
    reveal_strlit("B");
    reveal_strlit("KB");
    reveal_strlit("MB");
    reveal_strlit("GB");
    assert("B"@ == seq!['B']);
    assert("KB"@ == seq!['K', 'B']);
    assert("MB"@ == seq!['M', 'B']);
    assert("GB"@ == seq!['G', 'B']);
    lemma_number_and_unit(d, "B"@);
    lemma_number_and_unit(d, "KB"@);
    lemma_number_and_unit(d, "MB"@);
    lemma_number_and_unit(d, "GB"@);
}

/// A text in capitals tells no speed where the pattern matches nowhere, and only there.
pub proof fn no_match_is_no_speed(t: Seq<char>)
    ensures
        first_speed(t) is None <==> forall|i: int, j: int, k: int, b: int| !speed_at(t, i, j, k, b),
{
    if exists|i: int, j: int, k: int, b: int| speed_at(t, i, j, k, b) {
        let (i, j, k, b) = choose|i: int, j: int, k: int, b: int| speed_at(t, i, j, k, b);
        lemma_first_speed_exists(t, i, j, k, b);
    }
}

/// The speed that stands in a text: the first number in it, with the unit that follows after white
/// space or none. What stands before, if it holds no numeral, and what follows do not matter.
pub proof fn number_and_unit_make_the_speed(
    pre: Seq<char>,
    d: Seq<char>,
    space: Seq<char>,
    unit: Seq<char>,
    post: Seq<char>,
)
    requires
        all_ascii(pre + d + space + unit + post),
        forall|x: int| 0 <= x < pre.len() ==> !is_numeral(#[trigger] pre[x]),
        d.len() > 0,
        forall|x: int| 0 <= x < d.len() ==> is_numeral(#[trigger] d[x]),
        forall|x: int| 0 <= x < space.len() ==> is_space(#[trigger] space[x]),
        unit == seq!['B'] || unit == seq!['K', 'B'] || unit == seq!['M', 'B'] || unit == seq![
            'G',
            'B',
        ],
    ensures
        speed_of(pre + d + space + unit + post).digits == d,
        unit == seq!['B'] ==> speed_of(pre + d + space + unit + post).factor == 1,
        unit == seq!['K', 'B'] ==> speed_of(pre + d + space + unit + post).factor == 1024,
        unit == seq!['M', 'B'] ==> speed_of(pre + d + space + unit + post).factor == 1024 * 1024,
        unit == seq!['G', 'B'] ==> speed_of(pre + d + space + unit + post).factor == 1024 * 1024
            * 1024,
{
    let s = pre + d + space + unit + post;
    let t = capitals(s);
    let i = pre.len() as int;
    let j = i + d.len();
    let k = j + space.len();
    let b = k + unit.len() - 1;
    assert forall|x: int| i <= x < j implies is_numeral(#[trigger] t[x]) && t[x] == d[x - i] by {
        assert(s[x] == d[x - i]);
    }
    assert forall|x: int| j <= x < k implies is_space(#[trigger] t[x]) by {
        assert(s[x] == space[x - j]);
    }
    assert(s[k] == unit[0] && s[b] == unit.last());
    assert(t[k] == unit[0] && t[b] == 'B');
    assert(speed_at(t, i, j, k, b));
    assert forall|i2: int, j2: int, k2: int, b2: int| #[trigger]
        speed_at(t, i2, j2, k2, b2) implies i <= i2 by {
        if i2 < i {
            assert(is_numeral(t[i2]));
            assert(s[i2] == pre[i2]);
        }
    }
    assert(first_speed_at(t, i, j, k, b));
    lemma_first_speed_is(t, i, j, k, b);
    lemma_bytes_at(t, i, j, k, b);
    assert(t.subrange(i, j) == d);
}

/// A text in ASCII without a numeral, or without a `B`, tells no speed: zero bytes.
pub proof fn no_number_or_no_unit_is_no_speed(s: Seq<char>)
    requires
        all_ascii(s),
        (forall|x: int| 0 <= x < s.len() ==> !is_numeral(#[trigger] s[x])) || (forall|x: int|
            0 <= x < s.len() ==> #[trigger] s[x] != 'B' && s[x] != 'b'),
    ensures
        speed_of(s).digits == "0"@,
        speed_of(s).factor == 1,
{
    let t = capitals(s);
    no_match_is_no_speed(t);
    assert forall|i: int, j: int, k: int, b: int| !speed_at(t, i, j, k, b) by {
        if speed_at(t, i, j, k, b) {
            assert(is_numeral(t[i]));
            assert(is_numeral(s[i]));
            assert(s[b] == 'B' || s[b] == 'b');
        }
    }
}

/// The units are these, each of 1024 times the bytes of the one before; the largest whose bytes an
/// amount reaches is the one in which it is shown.
pub proof fn units_are_these(bytes: int)
    requires
        bytes >= 0,
    ensures
        ({
            let n = unit_number(bytes);
            &&& bytes < 1024 ==> unit_sign(n) == "B"@ && unit_bytes(n) == 1
            &&& 1024 <= bytes < 1024 * 1024 ==> unit_sign(n) == "KB"@ && unit_bytes(n) == 1024
            &&& 1024 * 1024 <= bytes < 0x4000_0000 ==> unit_sign(n) == "MB"@ && unit_bytes(n)
                == 1024 * 1024
            &&& 0x4000_0000 <= bytes < 0x100_0000_0000 ==> unit_sign(n) == "GB"@ && unit_bytes(n)
                == 0x4000_0000
            &&& 0x100_0000_0000 <= bytes < 0x4_0000_0000_0000 ==> unit_sign(n) == "TB"@
                && unit_bytes(n) == 0x100_0000_0000
            &&& 0x4_0000_0000_0000 <= bytes ==> unit_sign(n) == "PB"@ && unit_bytes(n)
                == 0x4_0000_0000_0000
        }),
{
    reveal_with_fuel(unit_bytes, 7);
}

} // verus!
