//! Text as sequences of characters: cutting, trimming and joining.

use vstd::prelude::*;

verus! {

/// The characters of Unicode's `White_Space` property.
pub open spec fn is_space(c: char) -> bool {
    ||| '\u{9}' <= c <= '\u{d}'
    ||| c == ' '
    ||| c == '\u{85}'
    ||| c == '\u{a0}'
    ||| c == '\u{1680}'
    ||| '\u{2000}' <= c <= '\u{200a}'
    ||| c == '\u{2028}'
    ||| c == '\u{2029}'
    ||| c == '\u{202f}'
    ||| c == '\u{205f}'
    ||| c == '\u{3000}'
}

/// What is left of `s` after its leading white space.
pub open spec fn trim_start(s: Seq<char>) -> Seq<char>
    decreases s.len(),
{
    if s.len() > 0 && is_space(s[0]) {
        trim_start(s.skip(1))
    } else {
        s
    }
}

/// What is left of `s` before its trailing white space.
pub open spec fn trim_end(s: Seq<char>) -> Seq<char>
    decreases s.len(),
{
    if s.len() > 0 && is_space(s.last()) {
        trim_end(s.drop_last())
    } else {
        s
    }
}

/// `s` without the white space at its two ends.
pub open spec fn trimmed(s: Seq<char>) -> Seq<char> {
    trim_end(trim_start(s))
}

/// `s` without the run of `c` at its end.
pub open spec fn without_trailing(s: Seq<char>, c: char) -> Seq<char>
    decreases s.len(),
{
    if s.len() > 0 && s.last() == c {
        without_trailing(s.drop_last(), c)
    } else {
        s
    }
}

/// The first position of `c` in `s`, or the length of `s` where it does not occur.
pub open spec fn first_of(s: Seq<char>, c: char) -> nat
    decreases s.len(),
{
    if s.len() == 0 || s[0] == c {
        0
    } else {
        1 + first_of(s.skip(1), c)
    }
}

/// The stretches of `s` between the occurrences of `c`, one more than there are occurrences.
pub open spec fn pieces(s: Seq<char>, c: char) -> Seq<Seq<char>>
    decreases s.len(),
{
    let i = first_of(s, c) as int;
    if 0 <= i < s.len() {
        seq![s.take(i)] + pieces(s.skip(i + 1), c)
    } else {
        seq![s]
    }
}

/// The lines of `s`, trimmed, those that are then empty left out.
pub open spec fn filled_lines(s: Seq<char>) -> Seq<Seq<char>> {
    filled(pieces(s, '\n'))
}

/// The trimmed texts of `parts` that are not empty.
pub open spec fn filled(parts: Seq<Seq<char>>) -> Seq<Seq<char>> {
    parts.map_values(|p: Seq<char>| trimmed(p)).filter(|p: Seq<char>| p.len() > 0)
}

/// `parts` one after the other, with `sep` between neighbours.
pub open spec fn joined(parts: Seq<Seq<char>>, sep: Seq<char>) -> Seq<char>
    decreases parts.len(),
{
    if parts.len() == 0 {
        Seq::empty()
    } else if parts.len() == 1 {
        parts[0]
    } else {
        joined(parts.drop_last(), sep) + sep + parts.last()
    }
}

/// The texts that a list of strings holds.
pub open spec fn texts(list: Seq<String>) -> Seq<Seq<char>> {
    list.map_values(|t: String| t@)
}

pub(crate) proof fn lemma_first_of(s: Seq<char>, c: char)
    ensures
        first_of(s, c) <= s.len(),
        first_of(s, c) < s.len() ==> s[first_of(s, c) as int] == c,
        forall|j: int| 0 <= j < first_of(s, c) ==> s[j] != c,
    decreases s.len(),
{
    if s.len() > 0 && s[0] != c {
        let rest = s.skip(1);
        lemma_first_of(rest, c);
        assert forall|j: int| 0 <= j < first_of(s, c) implies s[j] != c by {
            if j > 0 {
                assert(rest[j - 1] == s[j]);
            }
        }
    }
}

/// The first position is the one with `c` in it and no `c` before it.
pub(crate) proof fn lemma_first_of_is(s: Seq<char>, c: char, i: int)
    requires
        0 <= i <= s.len(),
        forall|j: int| 0 <= j < i ==> s[j] != c,
        i < s.len() ==> s[i] == c,
    ensures
        first_of(s, c) == i,
{
    lemma_first_of(s, c);
}

proof fn lemma_trim_start(s: Seq<char>)
    ensures
        trim_start(s).len() == 0 || !is_space(trim_start(s)[0]),
    decreases s.len(),
{
    if s.len() > 0 && is_space(s[0]) {
        lemma_trim_start(s.skip(1));
    }
}

proof fn lemma_trim_end(s: Seq<char>)
    ensures
        trim_end(s).len() == 0 || !is_space(trim_end(s).last()),
        trim_end(s).len() > 0 ==> trim_end(s)[0] == s[0],
    decreases s.len(),
{
    if s.len() > 0 && is_space(s.last()) {
        lemma_trim_end(s.drop_last());
    }
}

/// Trimmed text stays as it is when it is trimmed again.
pub proof fn trimming_twice_is_trimming(s: Seq<char>)
    ensures
        trimmed(trimmed(s)) == trimmed(s),
{
    lemma_trim_start(s);
    lemma_trim_end(trim_start(s));
}

/// The characters of `s`.
pub(crate) fn chars_of(s: &str) -> (chars: Vec<char>)
    ensures
        chars@ == s@,
{
    let mut chars: Vec<char> = Vec::new();
    for c in it: s.chars()
        invariant
            chars@ == it.seq().take(it.index() as int),
    {
        chars.push(c);
    }
    chars
}

/// Tells whether `c` is white space.
pub fn is_white(c: char) -> (r: bool)
    ensures
        r == is_space(c),
{
    ('\u{9}' <= c && c <= '\u{d}') || c == ' ' || c == '\u{85}' || c == '\u{a0}' || c == '\u{1680}'
        || ('\u{2000}' <= c && c <= '\u{200a}') || c == '\u{2028}' || c == '\u{2029}'
        || c == '\u{202f}' || c == '\u{205f}' || c == '\u{3000}'
}

/// Tells whether two texts are the same.
pub fn same(a: &str, b: &str) -> (r: bool)
    ensures
        r == (a@ == b@),
{
    a.to_owned() == b.to_owned()
}

/// `s` without the white space at its two ends.
pub fn trim<'a>(s: &'a str) -> (r: &'a str)
    ensures
        r@ == trimmed(s@),
{
    let chars = chars_of(s);
    let n: usize = chars.len();
    let mut i: usize = 0;
    assert(s@.skip(0) == s@);
    while i < n && is_white(chars[i])
        invariant
            i <= n,
            n == chars@.len(),
            chars@ == s@,
            trim_start(s@) == trim_start(s@.skip(i as int)),
        decreases n - i,
    {
        assert(s@.skip(i as int).skip(1) == s@.skip(i + 1));
        i = i + 1;
    }
    let ghost t = s@.skip(i as int);
    let mut j: usize = n;
    assert(t.take(j - i) == t);
    while i < j && is_white(chars[j - 1])
        invariant
            i <= j <= n,
            n == chars@.len(),
            chars@ == s@,
            t == s@.skip(i as int),
            trim_end(t) == trim_end(t.take(j - i)),
        decreases j,
    {
        assert(t.take(j - i).drop_last() == t.take(j - i - 1));
        j = j - 1;
    }
    assert(t.take(j - i) == s@.subrange(i as int, j as int));
    s.substring_char(i, j)
}

/// `s` without the run of `c` at its end.
pub fn trim_end_matches<'a>(s: &'a str, c: char) -> (r: &'a str)
    ensures
        r@ == without_trailing(s@, c),
{
    let chars = chars_of(s);
    let mut j: usize = chars.len();
    assert(s@.take(j as int) == s@);
    while 0 < j && chars[j - 1] == c
        invariant
            j <= chars@.len(),
            chars@ == s@,
            without_trailing(s@, c) == without_trailing(s@.take(j as int), c),
        decreases j,
    {
        assert(s@.take(j as int).drop_last() == s@.take(j - 1));
        j = j - 1;
    }
    assert(s@.take(j as int) == s@.subrange(0, j as int));
    s.substring_char(0, j)
}

/// The first position of `c` in `s`, counted in characters.
pub fn find(s: &str, c: char) -> (r: Option<usize>)
    ensures
        match r {
            Some(i) => i < s@.len() && i == first_of(s@, c),
            None => first_of(s@, c) == s@.len(),
        },
{
    let chars = chars_of(s);
    let n: usize = chars.len();
    let mut i: usize = 0;
    while i < n
        invariant
            i <= n,
            n == chars@.len(),
            chars@ == s@,
            forall|j: int| 0 <= j < i ==> s@[j] != c,
        decreases n - i,
    {
        if chars[i] == c {
            proof {
                lemma_first_of_is(s@, c, i as int);
            }
            return Some(i);
        }
        i = i + 1;
    }
    proof {
        lemma_first_of_is(s@, c, n as int);
    }
    None
}

/// The stretches of `s` between the occurrences of `c`.
pub fn split(s: &str, c: char) -> (r: Vec<String>)
    ensures
        texts(r@) == pieces(s@, c),
{
    let chars = chars_of(s);
    let n: usize = chars.len();
    let mut out: Vec<String> = Vec::new();
    let mut start: usize = 0;
    let mut i: usize = 0;
    assert(s@.skip(0) == s@);
    assert(texts(out@) + pieces(s@, c) == pieces(s@, c));
    while i < n
        invariant
            start <= i <= n,
            n == chars@.len(),
            chars@ == s@,
            texts(out@) + pieces(s@.skip(start as int), c) == pieces(s@, c),
            forall|j: int| start <= j < i ==> s@[j] != c,
        decreases n - i,
    {
        if chars[i] == c {
            let ghost before = out@;
            let ghost rest = s@.skip(start as int);
            out.push(s.substring_char(start, i).to_owned());
            proof {
                lemma_first_of_is(rest, c, i - start);
                assert(rest.take(i - start) == s@.subrange(start as int, i as int));
                assert(rest.skip(i - start + 1) == s@.skip(i + 1));
                assert(texts(out@) == texts(before).push(rest.take(i - start)));
                assert(texts(out@) + pieces(s@.skip(i + 1), c) == texts(before) + (seq![
                    rest.take(i - start),
                ] + pieces(s@.skip(i + 1), c)));
            }
            start = i + 1;
        }
        i = i + 1;
    }
    let ghost before = out@;
    let ghost rest = s@.skip(start as int);
    out.push(s.substring_char(start, n).to_owned());
    proof {
        lemma_first_of_is(rest, c, n - start);
        assert(rest == s@.subrange(start as int, n as int));
        assert(texts(out@) == texts(before) + seq![rest]);
    }
    out
}

/// One more part adds its trimmed text, unless that is empty.
pub(crate) proof fn lemma_filled_push(parts: Seq<Seq<char>>, p: Seq<char>)
    ensures
        filled(parts.push(p)) == if trimmed(p).len() > 0 {
            filled(parts).push(trimmed(p))
        } else {
            filled(parts)
        },
{
    let f = |p: Seq<char>| trimmed(p);
    let keep = |p: Seq<char>| p.len() > 0;
    let all = parts.push(p).map_values(f);
    assert(all.drop_last() == parts.map_values(f));
    reveal(Seq::filter);
    assert(all.last() == trimmed(p));
}

/// The trimmed texts of the first `n` parts that are not empty.
pub fn fill(parts: &Vec<String>, n: usize) -> (r: Vec<String>)
    requires
        n <= parts@.len(),
    ensures
        texts(r@) == filled(texts(parts@).take(n as int)),
{
    let ghost all = texts(parts@);
    let mut out: Vec<String> = Vec::new();
    let mut i: usize = 0;
    proof {
        reveal(Seq::filter);
        assert(texts(out@) == filled(all.take(0)));
    }
    while i < n
        invariant
            i <= n,
            n <= parts@.len(),
            all == texts(parts@),
            texts(out@) == filled(all.take(i as int)),
        decreases n - i,
    {
        let ghost before = out@;
        let line = trim(parts[i].as_str());
        proof {
            assert(all.take(i + 1) == all.take(i as int).push(all[i as int]));
            lemma_filled_push(all.take(i as int), all[i as int]);
        }
        if !line.is_empty() {
            out.push(line.to_owned());
            assert(texts(out@) == texts(before).push(line@));
        }
        i = i + 1;
    }
    out
}

/// The trimmed lines of `s` that are not empty.
pub fn lines(s: &str) -> (r: Vec<String>)
    ensures
        texts(r@) == filled_lines(s@),
{
    let parts = split(s, '\n');
    assert(texts(parts@).take(parts@.len() as int) == texts(parts@));
    fill(&parts, parts.len())
}

/// Tells whether `s` begins with `prefix`.
pub fn starts_with(s: &str, prefix: &str) -> (r: bool)
    ensures
        r == prefix@.is_prefix_of(s@),
{
    let a = chars_of(s);
    let b = chars_of(prefix);
    if a.len() < b.len() {
        return false;
    }
    let m: usize = b.len();
    let mut i: usize = 0;
    while i < m
        invariant
            i <= m,
            m == b@.len(),
            m <= a@.len(),
            a@ == s@,
            b@ == prefix@,
            forall|j: int| 0 <= j < i ==> a@[j] == b@[j],
        decreases m - i,
    {
        if a[i] != b[i] {
            assert(s@.subrange(0, m as int)[i as int] != prefix@[i as int]);
            return false;
        }
        i = i + 1;
    }
    assert(s@.subrange(0, m as int) == prefix@);
    true
}

/// Tells whether `s` ends in `suffix`.
pub fn ends_with(s: &str, suffix: &str) -> (r: bool)
    ensures
        r == suffix@.is_suffix_of(s@),
{
    let a = chars_of(s);
    let b = chars_of(suffix);
    if a.len() < b.len() {
        return false;
    }
    let m: usize = b.len();
    let d: usize = a.len() - m;
    let mut i: usize = 0;
    while i < m
        invariant
            i <= m,
            m == b@.len(),
            d + m == a.len(),
            a@ == s@,
            b@ == suffix@,
            forall|j: int| 0 <= j < i ==> a@[d + j] == b@[j],
        decreases m - i,
    {
        if a[d + i] != b[i] {
            assert(s@.subrange(d as int, s@.len() as int)[i as int] != suffix@[i as int]);
            return false;
        }
        i = i + 1;
    }
    assert(s@.subrange(d as int, s@.len() as int) == suffix@);
    true
}

/// Tells whether `a` and, right after it, `b` occur in `s`.
pub fn contains_pair(s: &str, a: char, b: char) -> (r: bool)
    ensures
        r == exists|i: int| 0 <= i < s@.len() - 1 && #[trigger] s@[i] == a && s@[i + 1] == b,
{
    let chars = chars_of(s);
    let n: usize = chars.len();
    let mut i: usize = 0;
    while i < n && i + 1 < n
        invariant
            i <= n,
            n == chars@.len(),
            chars@ == s@,
            forall|j: int|
                0 <= j < i && j < s@.len() - 1 ==> !(#[trigger] s@[j] == a && s@[j + 1] == b),
        decreases n - i,
    {
        if chars[i] == a && chars[i + 1] == b {
            assert(s@[i as int] == a);
            return true;
        }
        i = i + 1;
    }
    false
}

/// `s` without any occurrence of `c`.
pub fn remove_char(s: &str, c: char) -> (r: String)
    ensures
        r@ == s@.filter(|x: char| x != c),
{
    let chars = chars_of(s);
    let n: usize = chars.len();
    let mut out = String::new();
    let mut i: usize = 0;
    let ghost keep = |x: char| x != c;
    proof {
        reveal(Seq::filter);
        assert(out@ == s@.take(0).filter(keep));
    }
    while i < n
        invariant
            i <= n,
            n == chars@.len(),
            chars@ == s@,
            keep == (|x: char| x != c),
            out@ == s@.take(i as int).filter(keep),
        decreases n - i,
    {
        proof {
            reveal(Seq::filter);
            assert(s@.take(i + 1).drop_last() == s@.take(i as int));
        }
        if chars[i] != c {
            let ghost before = out@;
            out.append(s.substring_char(i, i + 1));
            assert(out@ == before.push(s@[i as int]));
        }
        i = i + 1;
    }
    assert(s@.take(n as int) == s@);
    out
}

/// The same texts once more.
pub fn copies(list: &Vec<String>) -> (r: Vec<String>)
    ensures
        texts(r@) == texts(list@),
{
    let n: usize = list.len();
    let mut out: Vec<String> = Vec::new();
    let mut i: usize = 0;
    while i < n
        invariant
            i <= n,
            n == list@.len(),
            texts(out@) == texts(list@).take(i as int),
        decreases n - i,
    {
        let ghost before = out@;
        out.push(list[i].clone());
        assert(texts(out@) == texts(before).push(list@[i as int]@));
        i = i + 1;
    }
    assert(texts(list@).take(n as int) == texts(list@));
    out
}

/// `parts` one after the other, with `sep` between neighbours.
pub fn join(parts: &Vec<String>, sep: &str) -> (r: String)
    ensures
        r@ == joined(texts(parts@), sep@),
{
    let ghost all = texts(parts@);
    let n: usize = parts.len();
    let mut out = String::new();
    let mut i: usize = 0;
    while i < n
        invariant
            i <= n,
            n == parts@.len(),
            all == texts(parts@),
            out@ == joined(all.take(i as int), sep@),
        decreases n - i,
    {
        assert(all.take(i + 1).drop_last() == all.take(i as int));
        if i > 0 {
            out.append(sep);
        }
        let ghost before = out@;
        out.append(parts[i].as_str());
        proof {
            if i == 0 {
                assert(all.take(0).len() == 0);
                assert(out@ == all.take(1)[0]);
            }
        }
        i = i + 1;
    }
    assert(all.take(n as int) == all);
    out
}

} // verus!
