//! The downloads of a monitor as a sequence of keys and downloads, and what a monitor does with
//! it.

use vstd::prelude::*;

use crate::entry::EntryModel;
use crate::speed::SpeedModel;

verus! {

/// The first position of `key` in `d`, or the length of `d` where it does not occur.
pub open spec fn position<A>(d: Seq<(Seq<char>, A)>, key: Seq<char>) -> nat
    decreases d.len(),
{
    if d.len() == 0 || d[0].0 == key {
        0
    } else {
        1 + position(d.skip(1), key)
    }
}

/// Tells whether `key` occurs in `d`.
pub open spec fn present<A>(d: Seq<(Seq<char>, A)>, key: Seq<char>) -> bool {
    position(d, key) < d.len()
}

/// The download under `key` in `d`.
pub open spec fn lookup<A>(d: Seq<(Seq<char>, A)>, key: Seq<char>) -> Option<A> {
    if present(d, key) {
        Some(d[position(d, key) as int].1)
    } else {
        None
    }
}

/// `d` without `key`, the others in their order.
pub open spec fn without<A>(d: Seq<(Seq<char>, A)>, key: Seq<char>) -> Seq<
    (Seq<char>, A),
> {
    if present(d, key) {
        d.remove(position(d, key) as int)
    } else {
        d
    }
}

/// `d` with `e` under `key`: in its place where `key` occurs, else last.
pub open spec fn with<A>(d: Seq<(Seq<char>, A)>, key: Seq<char>, e: A) -> Seq<
    (Seq<char>, A),
> {
    if present(d, key) {
        d.update(position(d, key) as int, (key, e))
    } else {
        d.push((key, e))
    }
}

/// The past speeds under `key`, none where `h` does not have it.
pub open spec fn past(h: Seq<(Seq<char>, Seq<SpeedModel>)>, key: Seq<char>) -> Seq<SpeedModel> {
    match lookup(h, key) {
        Some(series) => series,
        None => Seq::empty(),
    }
}

/// Tells whether no key occurs twice.
pub open spec fn distinct<A>(d: Seq<(Seq<char>, A)>) -> bool {
    forall|i: int, j: int| 0 <= i < j < d.len() ==> #[trigger] d[i].0 != #[trigger] d[j].0
}

/// The keys of the completed downloads, in the order of `d`.
pub open spec fn completed_keys(d: Seq<(Seq<char>, EntryModel)>) -> Seq<Seq<char>>
    decreases d.len(),
{
    if d.len() == 0 {
        Seq::empty()
    } else if d.last().1.completed {
        completed_keys(d.drop_last()).push(d.last().0)
    } else {
        completed_keys(d.drop_last())
    }
}

/// The number of downloads that are not completed.
pub open spec fn active_count(d: Seq<(Seq<char>, EntryModel)>) -> nat
    decreases d.len(),
{
    if d.len() == 0 {
        0
    } else if d.last().1.completed {
        active_count(d.drop_last())
    } else {
        active_count(d.drop_last()) + 1
    }
}

/// The last completed download.
pub open spec fn latest_completed(d: Seq<(Seq<char>, EntryModel)>) -> Option<EntryModel>
    decreases d.len(),
{
    if d.len() == 0 {
        None
    } else if d.last().1.completed {
        Some(d.last().1)
    } else {
        latest_completed(d.drop_last())
    }
}

/// The latest speed of each download that is not completed and has a past, in the order of `d`.
pub open spec fn active_speeds(
    d: Seq<(Seq<char>, EntryModel)>,
    h: Seq<(Seq<char>, Seq<SpeedModel>)>,
) -> Seq<SpeedModel>
    decreases d.len(),
{
    if d.len() == 0 {
        Seq::empty()
    } else {
        let e = d.last().1;
        let rest = active_speeds(d.drop_last(), h);
        if !e.completed && past(h, e.name).len() > 0 {
            rest.push(past(h, e.name).last())
        } else {
            rest
        }
    }
}

/// The name and the past of each download that is not completed and has one, in the order of `d`.
pub open spec fn active_series(
    d: Seq<(Seq<char>, EntryModel)>,
    h: Seq<(Seq<char>, Seq<SpeedModel>)>,
) -> Seq<(Seq<char>, Seq<SpeedModel>)>
    decreases d.len(),
{
    if d.len() == 0 {
        Seq::empty()
    } else {
        let e = d.last().1;
        let rest = active_series(d.drop_last(), h);
        if !e.completed && past(h, e.name).len() > 0 {
            rest.push((e.name, past(h, e.name)))
        } else {
            rest
        }
    }
}

/// The latest speeds are the last samples of the series, one for one.
pub proof fn latest_speeds_end_the_series(
    d: Seq<(Seq<char>, EntryModel)>,
    h: Seq<(Seq<char>, Seq<SpeedModel>)>,
)
    ensures
        active_speeds(d, h) == active_series(d, h).map_values(
            |s: (Seq<char>, Seq<SpeedModel>)| s.1.last(),
        ),
    decreases d.len(),
{
    let f = |s: (Seq<char>, Seq<SpeedModel>)| s.1.last();
    if d.len() > 0 {
        latest_speeds_end_the_series(d.drop_last(), h);
        let rest = active_series(d.drop_last(), h);
        let e = d.last().1;
        assert(rest.push((e.name, past(h, e.name))).map_values(f) =~= rest.map_values(f).push(
            past(h, e.name).last(),
        ));
    }
    assert(active_speeds(d, h) =~= active_series(d, h).map_values(f));
}

/// `d` without the given keys, the others in their order.
pub open spec fn without_all<A>(d: Seq<(Seq<char>, A)>, keys: Seq<Seq<char>>) -> Seq<
    (Seq<char>, A),
> {
    d.filter(|p: (Seq<char>, A)| !keys.contains(p.0))
}

/// The keys of the completed downloads that are too many: all but the last `limit` of them.
pub open spec fn evicted(d: Seq<(Seq<char>, EntryModel)>, limit: int) -> Seq<Seq<char>> {
    let done = completed_keys(d);
    if done.len() > limit {
        done.take(done.len() - limit)
    } else {
        Seq::empty()
    }
}

pub(crate) proof fn lemma_position<A>(d: Seq<(Seq<char>, A)>, key: Seq<char>)
    ensures
        position(d, key) <= d.len(),
        position(d, key) < d.len() ==> d[position(d, key) as int].0 == key,
        forall|j: int| 0 <= j < position(d, key) ==> (#[trigger] d[j]).0 != key,
    decreases d.len(),
{
    if d.len() > 0 && d[0].0 != key {
        let rest = d.skip(1);
        lemma_position(rest, key);
        assert forall|j: int| 0 <= j < position(d, key) implies (#[trigger] d[j]).0 != key by {
            if j > 0 {
                assert(rest[j - 1] == d[j]);
            }
        }
    }
}

/// Distinct keys are distinct without the last.
proof fn lemma_prefix_is_distinct<A>(d: Seq<(Seq<char>, A)>)
    requires
        distinct(d),
        d.len() > 0,
    ensures
        distinct(d.drop_last()),
{
    let d0 = d.drop_last();
    assert forall|i: int, j: int| 0 <= i < j < d0.len() implies #[trigger] d0[i].0
        != #[trigger] d0[j].0 by {
        assert(d0[i] == d[i] && d0[j] == d[j]);
    }
}

/// A key that stands at `i` and nowhere before has the position `i`.
pub(crate) proof fn lemma_position_is<A>(d: Seq<(Seq<char>, A)>, key: Seq<char>, i: int)
    requires
        0 <= i <= d.len(),
        forall|j: int| 0 <= j < i ==> (#[trigger] d[j]).0 != key,
        i < d.len() ==> d[i].0 == key,
    ensures
        position(d, key) == i,
{
    lemma_position(d, key);
}

/// A key occurs where some place holds it.
pub(crate) proof fn lemma_present<A>(d: Seq<(Seq<char>, A)>, key: Seq<char>)
    ensures
        present(d, key) <==> exists|i: int| 0 <= i < d.len() && (#[trigger] d[i]).0 == key,
{
    lemma_position(d, key);
}

/// Where keys are distinct, a download is found under its key.
pub(crate) proof fn lemma_lookup_at<A>(d: Seq<(Seq<char>, A)>, i: int)
    requires
        distinct(d),
        0 <= i < d.len(),
    ensures
        present(d, d[i].0),
        position(d, d[i].0) == i,
        lookup(d, d[i].0) == Some(d[i].1),
{
    lemma_position_is(d, d[i].0, i);
}

/// Taking a key out of distinct keys leaves distinct keys, not that one, and the others as they
/// were.
pub(crate) proof fn lemma_without<A>(d: Seq<(Seq<char>, A)>, key: Seq<char>)
    requires
        distinct(d),
    ensures
        distinct(without(d, key)),
        !present(without(d, key), key),
        forall|k: Seq<char>|
            k != key ==> #[trigger] lookup(without(d, key), k) == lookup(d, k),
{
    let w = without(d, key);
    let p = position(d, key) as int;
    lemma_position(d, key);
    assert forall|i: int| 0 <= i < w.len() implies (#[trigger] w[i]).0 != key by {
        if present(d, key) {
            if i < p {
                assert(w[i] == d[i]);
            } else {
                assert(w[i] == d[i + 1]);
                assert(d[p].0 != d[i + 1].0);
            }
        }
    }
    lemma_present(w, key);
    assert forall|i: int, j: int| 0 <= i < j < w.len() implies #[trigger] w[i].0
        != #[trigger] w[j].0 by {
        if present(d, key) {
            let i0 = if i < p { i } else { i + 1 };
            let j0 = if j < p { j } else { j + 1 };
            assert(w[i] == d[i0] && w[j] == d[j0]);
        }
    }
    assert forall|k: Seq<char>| k != key implies #[trigger] lookup(w, k) == lookup(d, k) by {
        lemma_position(d, k);
        lemma_position(w, k);
        if present(d, key) {
            let q = position(d, k) as int;
            if present(d, k) {
                if q < p {
                    assert(w[q] == d[q]);
                    lemma_lookup_at(w, q);
                } else {
                    assert(q != p);
                    assert(w[q - 1] == d[q]);
                    lemma_lookup_at(w, q - 1);
                }
            } else if present(w, k) {
                let i = position(w, k) as int;
                let i0 = if i < p { i } else { i + 1 };
                assert(w[i] == d[i0]);
                lemma_present(d, k);
            }
        }
    }
}

proof fn lemma_without_push<A>(
    d: Seq<(Seq<char>, A)>,
    p: (Seq<char>, A),
    key: Seq<char>,
)
    ensures
        present(d, key) ==> without(d.push(p), key) == without(d, key).push(p),
        !present(d, key) && p.0 == key ==> without(d.push(p), key) == d,
        !present(d, key) && p.0 != key ==> without(d.push(p), key) == d.push(p),
{
    let dp = d.push(p);
    lemma_position(d, key);
    assert forall|j: int| 0 <= j < position(d, key) implies (#[trigger] dp[j]).0 != key by {
        assert(dp[j] == d[j]);
    }
    if present(d, key) {
        lemma_position_is(dp, key, position(d, key) as int);
        assert(without(dp, key) =~= without(d, key).push(p));
    } else if p.0 == key {
        lemma_position_is(dp, key, d.len() as int);
        assert(without(dp, key) =~= d);
    } else {
        lemma_position_is(dp, key, dp.len() as int);
    }
}

/// A place of what is left holds a pair that stood in `d` and whose key was not taken out; each
/// such pair is left.
pub(crate) proof fn lemma_without_all<A>(d: Seq<(Seq<char>, A)>, keys: Seq<Seq<char>>)
    ensures
        forall|i: int|
            0 <= i < without_all(d, keys).len() ==> d.contains(#[trigger] without_all(d, keys)[i])
                && !keys.contains(without_all(d, keys)[i].0),
        forall|i: int|
            0 <= i < d.len() && !keys.contains((#[trigger] d[i]).0) ==> without_all(
                d,
                keys,
            ).contains(d[i]),
        distinct(d) ==> distinct(without_all(d, keys)),
    decreases d.len(),
{
    reveal(Seq::filter);
    let w = without_all(d, keys);
    if d.len() > 0 {
        let d0 = d.drop_last();
        let w0 = without_all(d0, keys);
        lemma_without_all(d0, keys);
        let p = d.last();
        assert(w == if keys.contains(p.0) { w0 } else { w0.push(p) });
        assert forall|i: int| 0 <= i < w.len() implies d.contains(#[trigger] w[i])
            && !keys.contains(w[i].0) by {
            if i < w0.len() {
                assert(w[i] == w0[i]);
                let j = choose|j: int| 0 <= j < d0.len() && d0[j] == w0[i];
                assert(d[j] == w[i]);
            } else {
                assert(w[i] == p);
                assert(d[d.len() - 1] == p);
            }
        }
        assert forall|i: int| 0 <= i < d.len() && !keys.contains(
            (#[trigger] d[i]).0,
        ) implies w.contains(d[i]) by {
            if i < d0.len() {
                assert(d0[i] == d[i]);
                let j = choose|j: int| 0 <= j < w0.len() && w0[j] == d[i];
                assert(w[j] == d[i]);
            } else {
                assert(w[w.len() - 1] == d[i]);
            }
        }
        if distinct(d) {
            lemma_prefix_is_distinct(d);
            assert forall|i: int, j: int| 0 <= i < j < w.len() implies #[trigger] w[i].0
                != #[trigger] w[j].0 by {
                assert(w[i] == w0[i]);
                if j < w0.len() {
                    assert(w[j] == w0[j]);
                } else {
                    let k = choose|k: int| 0 <= k < d0.len() && d0[k] == w0[i];
                    assert(d[k] == w[i]);
                    assert(d[k].0 != d[d.len() - 1].0);
                }
            }
        }
    }
}

/// What stays is found as it was.
pub(crate) proof fn lemma_lookup_without_all<A>(
    d: Seq<(Seq<char>, A)>,
    keys: Seq<Seq<char>>,
    key: Seq<char>,
)
    requires
        distinct(d),
    ensures
        lookup(without_all(d, keys), key) == if keys.contains(key) {
            None
        } else {
            lookup(d, key)
        },
{
    let w = without_all(d, keys);
    lemma_without_all(d, keys);
    lemma_present(d, key);
    lemma_present(w, key);
    if present(w, key) {
        let i = choose|i: int| 0 <= i < w.len() && (#[trigger] w[i]).0 == key;
        lemma_lookup_at(w, i);
        let j = choose|j: int| 0 <= j < d.len() && d[j] == w[i];
        lemma_lookup_at(d, j);
    } else if present(d, key) && !keys.contains(key) {
        let i = choose|i: int| 0 <= i < d.len() && (#[trigger] d[i]).0 == key;
        assert(w.contains(d[i]));
        let j = choose|j: int| 0 <= j < w.len() && w[j] == d[i];
        assert(w[j].0 == key);
    }
}

/// What is put under a key is found there; the others are found as they were.
pub(crate) proof fn lemma_with<A>(d: Seq<(Seq<char>, A)>, key: Seq<char>, e: A)
    requires
        distinct(d),
    ensures
        distinct(with(d, key, e)),
        forall|k: Seq<char>| #[trigger]
            lookup(with(d, key, e), k) == if k == key {
                Some(e)
            } else {
                lookup(d, k)
            },
        forall|i: int|
            0 <= i < with(d, key, e).len() ==> (#[trigger] with(d, key, e)[i] == (key, e)
                || d.contains(with(d, key, e)[i])),
{
    let w = with(d, key, e);
    let p = position(d, key) as int;
    lemma_position(d, key);
    assert(w[p] == (key, e));
    assert forall|i: int| 0 <= i < w.len() implies (#[trigger] w[i] == (key, e) || d.contains(
        w[i],
    )) by {
        if i != p {
            assert(w[i] == d[i]);
        }
    }
    assert forall|i: int, j: int| 0 <= i < j < w.len() implies #[trigger] w[i].0
        != #[trigger] w[j].0 by {
        if i != p {
            assert(w[i] == d[i]);
        }
        if j != p {
            assert(w[j] == d[j]);
        }
        if i == p {
            assert(d[p].0 == key);
        }
    }
    assert forall|k: Seq<char>| #[trigger] lookup(w, k) == if k == key {
        Some(e)
    } else {
        lookup(d, k)
    } by {
        if k == key {
            lemma_lookup_at(w, p);
        } else {
            lemma_present(w, k);
            lemma_present(d, k);
            if present(d, k) {
                let q = position(d, k) as int;
                lemma_position(d, k);
                assert(w[q] == d[q]);
                lemma_lookup_at(w, q);
            } else if present(w, k) {
                let q = choose|q: int| 0 <= q < w.len() && (#[trigger] w[q]).0 == k;
                assert(w[q] == d[q]);
            }
        }
    }
}

/// Taking one key more out of distinct keys.
pub(crate) proof fn lemma_without_all_push<A>(
    d: Seq<(Seq<char>, A)>,
    keys: Seq<Seq<char>>,
    key: Seq<char>,
)
    requires
        distinct(d),
    ensures
        without_all(d, keys.push(key)) == without(without_all(d, keys), key),
    decreases d.len(),
{
    reveal(Seq::filter);
    let more = keys.push(key);
    assert forall|k: Seq<char>| more.contains(k) <==> keys.contains(k) || k == key by {
        if keys.contains(k) {
            let i = choose|i: int| 0 <= i < keys.len() && keys[i] == k;
            assert(more[i] == k);
        }
        assert(more[keys.len() as int] == key);
    }
    if d.len() > 0 {
        let d0 = d.drop_last();
        let p = d.last();
        let w0 = without_all(d0, keys);
        lemma_prefix_is_distinct(d);
        lemma_without_all_push(d0, keys, key);
        if !keys.contains(p.0) {
            lemma_without_push(w0, p, key);
            if p.0 == key {
                assert(!present(w0, key)) by {
                    lemma_present(w0, key);
                    lemma_without_all(d0, keys);
                    if present(w0, key) {
                        let i = choose|i: int| 0 <= i < w0.len() && (#[trigger] w0[i]).0 == key;
                        let j = choose|j: int| 0 <= j < d0.len() && d0[j] == w0[i];
                        assert(d[j].0 != d[d.len() - 1].0);
                    }
                }
            } else if !present(w0, key) {
                assert(without(w0, key) == w0);
            }
        }
    }
}

/// The completed keys are the keys of the completed downloads.
pub(crate) proof fn lemma_completed_keys(d: Seq<(Seq<char>, EntryModel)>)
    ensures
        forall|i: int|
            0 <= i < d.len() && (#[trigger] d[i]).1.completed ==> completed_keys(d).contains(
                d[i].0,
            ),
        forall|k: Seq<char>| #[trigger]
            completed_keys(d).contains(k) ==> exists|i: int|
                0 <= i < d.len() && (#[trigger] d[i]).0 == k && d[i].1.completed,
        distinct(d) ==> completed_keys(d).no_duplicates(),
    decreases d.len(),
{
    let c = completed_keys(d);
    if d.len() > 0 {
        let d0 = d.drop_last();
        let c0 = completed_keys(d0);
        lemma_completed_keys(d0);
        assert forall|i: int| 0 <= i < d.len() && (#[trigger] d[i]).1.completed implies c.contains(
            d[i].0,
        ) by {
            if i < d0.len() {
                assert(d0[i] == d[i]);
                let j = choose|j: int| 0 <= j < c0.len() && c0[j] == d[i].0;
                assert(c[j] == d[i].0);
            } else {
                assert(c[c.len() - 1] == d[i].0);
            }
        }
        assert forall|k: Seq<char>| #[trigger] c.contains(k) implies exists|i: int|
            0 <= i < d.len() && (#[trigger] d[i]).0 == k && d[i].1.completed by {
            let j = choose|j: int| 0 <= j < c.len() && c[j] == k;
            if j < c0.len() {
                assert(c0[j] == k);
                assert(c0.contains(k));
                let i = choose|i: int|
                    0 <= i < d0.len() && (#[trigger] d0[i]).0 == k && d0[i].1.completed;
                assert(d[i] == d0[i]);
            } else {
                assert(d[d.len() - 1].0 == k);
            }
        }
        if distinct(d) {
            lemma_prefix_is_distinct(d);
            if d.last().1.completed {
                assert(!c0.contains(d.last().0)) by {
                    if c0.contains(d.last().0) {
                        let i = choose|i: int|
                            0 <= i < d0.len() && (#[trigger] d0[i]).0 == d.last().0
                                && d0[i].1.completed;
                        assert(d[i].0 != d[d.len() - 1].0);
                    }
                }
            }
        }
    }
}

/// Taking the first completed download out takes the first completed key away.
pub(crate) proof fn lemma_without_first_completed(d: Seq<(Seq<char>, EntryModel)>)
    requires
        distinct(d),
        completed_keys(d).len() > 0,
    ensures
        completed_keys(without(d, completed_keys(d)[0])) == completed_keys(d).skip(1),
    decreases d.len(),
{
    let d0 = d.drop_last();
    let p = d.last();
    let c0 = completed_keys(d0);
    let key = completed_keys(d)[0];
    assert(d == d0.push(p));
    lemma_prefix_is_distinct(d);
    lemma_without_push(d0, p, key);
    lemma_completed_keys(d0);
    if c0.len() > 0 {
        assert(key == c0[0]);
        assert(c0.contains(key));
        lemma_present(d0, key);
        lemma_without_first_completed(d0);
        let w0 = without(d0, key);
        assert(w0.push(p).drop_last() == w0);
        if p.1.completed {
            assert(completed_keys(d).skip(1) == c0.skip(1).push(p.0));
        }
    } else {
        assert(key == p.0);
        assert(!present(d0, key)) by {
            lemma_present(d0, key);
            if present(d0, key) {
                let i = choose|i: int| 0 <= i < d0.len() && (#[trigger] d0[i]).0 == key;
                assert(d[i].0 != d[d.len() - 1].0);
            }
        }
        assert(completed_keys(d).skip(1) == c0);
    }
}

/// Taking the first `n` completed keys out leaves the others.
pub(crate) proof fn lemma_without_first(d: Seq<(Seq<char>, EntryModel)>, n: int)
    requires
        distinct(d),
        0 <= n <= completed_keys(d).len(),
    ensures
        completed_keys(without_all(d, completed_keys(d).take(n))) == completed_keys(d).skip(n),
    decreases n,
{
    let c = completed_keys(d);
    if n == 0 {
        lemma_without_none(d);
        assert(c.take(0) == Seq::<Seq<char>>::empty());
        assert(c.skip(0) == c);
    } else {
        lemma_without_first(d, n - 1);
        lemma_without_all(d, c.take(n - 1));
        let w = without_all(d, c.take(n - 1));
        assert(completed_keys(w)[0] == c[n - 1]);
        lemma_without_first_completed(w);
        lemma_without_all_push(d, c.take(n - 1), c[n - 1]);
        assert(c.take(n - 1).push(c[n - 1]) == c.take(n));
        assert(c.skip(n - 1).skip(1) == c.skip(n));
    }
}

/// Taking no key out leaves all.
pub(crate) proof fn lemma_without_none<A>(d: Seq<(Seq<char>, A)>)
    ensures
        without_all(d, Seq::empty()) == d,
    decreases d.len(),
{
    reveal(Seq::filter);
    if d.len() > 0 {
        lemma_without_none(d.drop_last());
        assert(d.drop_last().push(d.last()) == d);
    }
}

} // verus!
