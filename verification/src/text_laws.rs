//! What cutting, trimming and joining do to a text, for every text.

use vstd::prelude::*;

verus! {

use crate::text::{
    filled, filled_lines, first_of, is_space, joined, lemma_filled_push, lemma_first_of,
    lemma_first_of_is, pieces, trim_end, trim_start, trimmed, without_trailing,
};

/// White space is what Unicode says: these code points and no others.
pub proof fn white_space_is_unicodes(c: char)
    ensures
        is_space(c) <==> {
            ||| 0x9 <= c as u32 <= 0xd
            ||| c as u32 == 0x20
            ||| c as u32 == 0x85
            ||| c as u32 == 0xa0
            ||| c as u32 == 0x1680
            ||| 0x2000 <= c as u32 <= 0x200a
            ||| c as u32 == 0x2028
            ||| c as u32 == 0x2029
            ||| c as u32 == 0x202f
            ||| c as u32 == 0x205f
            ||| c as u32 == 0x3000
        },
{
}

/// Tells whether `s` is white space alone.
pub open spec fn is_blank(s: Seq<char>) -> bool {
    forall|i: int| 0 <= i < s.len() ==> is_space(#[trigger] s[i])
}

/// Tells whether `s` is empty or has no white space at its two ends.
pub open spec fn is_tight(s: Seq<char>) -> bool {
    s.len() > 0 ==> !is_space(s[0]) && !is_space(s.last())
}

/// White space before a text that begins with something else is trimmed, and nothing more.
pub(crate) proof fn lemma_trim_start_of(l: Seq<char>, s: Seq<char>)
    requires
        is_blank(l),
        s.len() > 0 ==> !is_space(s[0]),
    ensures
        trim_start(l + s) == s,
    decreases l.len(),
{
    if l.len() == 0 {
        assert(l + s == s);
    } else {
        assert((l + s)[0] == l[0]);
        assert((l + s).skip(1) == l.skip(1) + s);
        lemma_trim_start_of(l.skip(1), s);
    }
}

/// White space after a text that ends in something else is trimmed, and nothing more.
pub(crate) proof fn lemma_trim_end_of(s: Seq<char>, r: Seq<char>)
    requires
        is_blank(r),
        s.len() > 0 ==> !is_space(s.last()),
    ensures
        trim_end(s + r) == s,
    decreases r.len(),
{
    if r.len() == 0 {
        assert(s + r == s);
    } else {
        assert((s + r).last() == r.last());
        assert((s + r).drop_last() == s + r.drop_last());
        lemma_trim_end_of(s, r.drop_last());
    }
}

/// The white space around a text is trimmed, all of it and nothing else.
pub proof fn padding_is_trimmed(l: Seq<char>, s: Seq<char>, r: Seq<char>)
    requires
        is_blank(l),
        is_tight(s),
        is_blank(r),
    ensures
        trimmed(l + s + r) == s,
{
    if s.len() == 0 {
        assert(l + s + r == (l + r) + s);
        assert forall|i: int| 0 <= i < (l + r).len() implies is_space(#[trigger] (l + r)[i]) by {
            if i < l.len() {
                assert((l + r)[i] == l[i]);
            } else {
                assert((l + r)[i] == r[i - l.len()]);
            }
        }
        lemma_trim_start_of(l + r, s);
        assert(s + Seq::<char>::empty() == s);
        lemma_trim_end_of(s, Seq::empty());
    } else {
        assert(l + s + r == l + (s + r));
        assert((s + r)[0] == s[0]);
        lemma_trim_start_of(l, s + r);
        lemma_trim_end_of(s, r);
    }
}

/// Every text is a trimmed one with white space around it.
pub proof fn trimming_cuts_white_space(s: Seq<char>) -> (cut: (int, int))
    ensures
        0 <= cut.0 <= cut.1 <= s.len(),
        trimmed(s) == s.subrange(cut.0, cut.1),
        is_tight(trimmed(s)),
        is_blank(s.take(cut.0)),
        is_blank(s.skip(cut.1)),
{
    let i = lemma_leading(s);
    let t = s.skip(i);
    let j = lemma_trailing(t);
    assert(s == s.take(i) + t.take(j) + t.skip(j));
    padding_is_trimmed(s.take(i), t.take(j), t.skip(j));
    assert(s.subrange(i, i + j) == t.take(j));
    assert(s.skip(i + j) == t.skip(j));
    (i, i + j)
}

proof fn lemma_leading(s: Seq<char>) -> (i: int)
    ensures
        0 <= i <= s.len(),
        is_blank(s.take(i)),
        i < s.len() ==> !is_space(s[i]),
    decreases s.len(),
{
    if s.len() == 0 || !is_space(s[0]) {
        0
    } else {
        let k = lemma_leading(s.skip(1));
        assert forall|x: int| 0 <= x < k + 1 implies is_space(#[trigger] s.take(k + 1)[x]) by {
            if x > 0 {
                assert(s.take(k + 1)[x] == s.skip(1).take(k)[x - 1]);
            }
        }
        k + 1
    }
}

proof fn lemma_trailing(s: Seq<char>) -> (j: int)
    requires
        s.len() > 0 ==> !is_space(s[0]),
    ensures
        0 <= j <= s.len(),
        is_blank(s.skip(j)),
        is_tight(s.take(j)),
    decreases s.len(),
{
    if s.len() == 0 || !is_space(s.last()) {
        assert(s.take(s.len() as int) == s);
        s.len() as int
    } else {
        let j = lemma_trailing(s.drop_last());
        assert(s.take(j) == s.drop_last().take(j));
        assert forall|x: int| 0 <= x < s.skip(j).len() implies is_space(
            #[trigger] s.skip(j)[x],
        ) by {
            if x < s.len() - 1 - j {
                assert(s.skip(j)[x] == s.drop_last().skip(j)[x]);
            }
        }
        j
    }
}

/// White space around a text does not matter to what is left of it.
pub proof fn outer_white_space_does_not_matter(l: Seq<char>, s: Seq<char>, r: Seq<char>)
    requires
        is_blank(l),
        is_blank(r),
    ensures
        trimmed(l + s + r) == trimmed(s),
{
    let (i, j) = trimming_cuts_white_space(s);
    let l2 = l + s.take(i);
    let r2 = s.skip(j) + r;
    assert(l + s + r == l2 + trimmed(s) + r2);
    assert forall|x: int| 0 <= x < l2.len() implies is_space(#[trigger] l2[x]) by {
        if x < l.len() {
            assert(l2[x] == l[x]);
        } else {
            assert(l2[x] == s.take(i)[x - l.len()]);
        }
    }
    assert forall|x: int| 0 <= x < r2.len() implies is_space(#[trigger] r2[x]) by {
        if x < s.skip(j).len() {
            assert(r2[x] == s.skip(j)[x]);
        } else {
            assert(r2[x] == r[x - s.skip(j).len()]);
        }
    }
    padding_is_trimmed(l2, trimmed(s), r2);
}

/// Cutting a run of `c` off the end takes all of it and nothing else.
pub proof fn trailing_run_is_cut(s: Seq<char>, c: char, n: nat)
    requires
        s.len() > 0 ==> s.last() != c,
    ensures
        without_trailing(s + Seq::new(n, |i: int| c), c) == s,
    decreases n,
{
    let run = Seq::new(n, |i: int| c);
    if n == 0 {
        assert(s + run == s);
    } else {
        assert((s + run).drop_last() == s + Seq::new((n - 1) as nat, |i: int| c));
        trailing_run_is_cut(s, c, (n - 1) as nat);
    }
}

/// A text without `c` is one piece; up to the first `c` there is one piece, and after it come the
/// pieces of the rest.
pub proof fn pieces_stand_between(a: Seq<char>, c: char, rest: Seq<char>)
    requires
        !a.contains(c),
    ensures
        pieces(a, c) == seq![a],
        pieces(a + seq![c] + rest, c) == seq![a] + pieces(rest, c),
{
    lemma_first_of(a, c);
    if first_of(a, c) < a.len() {
        assert(a.contains(a[first_of(a, c) as int]));
    }
    let s = a + seq![c] + rest;
    let n = a.len() as int;
    assert forall|j: int| 0 <= j < n implies s[j] != c by {
        assert(s[j] == a[j]);
    }
    assert(s[n] == c);
    lemma_first_of_is(s, c, n);
    assert(s.take(n) == a);
    assert(s.skip(n + 1) == rest);
}

/// The pieces of a text, joined again, are that text, and none holds the separator.
pub proof fn pieces_join_to_the_text(s: Seq<char>, c: char)
    ensures
        joined(pieces(s, c), seq![c]) == s,
        forall|i: int| 0 <= i < pieces(s, c).len() ==> !(#[trigger] pieces(s, c)[i]).contains(c),
    decreases s.len(),
{
    lemma_first_of(s, c);
    let i = first_of(s, c) as int;
    if i < s.len() {
        let a = s.take(i);
        let rest = s.skip(i + 1);
        assert(!a.contains(c)) by {
            if a.contains(c) {
                let x = choose|x: int| 0 <= x < a.len() && a[x] == c;
                assert(s[x] == c);
            }
        }
        pieces_join_to_the_text(rest, c);
        lemma_pieces_some(rest, c);
        lemma_joined_first(a, pieces(rest, c), seq![c]);
        assert(a + seq![c] + rest == s);
        let ps = pieces(s, c);
        assert forall|k: int| 0 <= k < ps.len() implies !(#[trigger] ps[k]).contains(c) by {
            if k > 0 {
                assert(ps[k] == pieces(rest, c)[k - 1]);
            }
        }
    } else {
        assert(pieces(s, c)[0] == s);
        if s.contains(c) {
            let x = choose|x: int| 0 <= x < s.len() && s[x] == c;
            assert(s[x] != c);
        }
    }
}

/// Texts without the separator, joined, have themselves as pieces.
pub proof fn joined_texts_are_pieces(parts: Seq<Seq<char>>, c: char)
    requires
        parts.len() > 0,
        forall|i: int| 0 <= i < parts.len() ==> !(#[trigger] parts[i]).contains(c),
    ensures
        pieces(joined(parts, seq![c]), c) == parts,
    decreases parts.len(),
{
    let a = parts[0];
    if parts.len() == 1 {
        pieces_stand_between(a, c, Seq::empty());
        assert(parts == seq![a]);
    } else {
        let others = parts.skip(1);
        assert forall|i: int| 0 <= i < others.len() implies !(#[trigger] others[i]).contains(c) by {
            assert(others[i] == parts[i + 1]);
        }
        joined_texts_are_pieces(others, c);
        lemma_joined_first(a, others, seq![c]);
        assert(seq![a] + others == parts);
        pieces_stand_between(a, c, joined(others, seq![c]));
    }
}

/// There is always a piece.
pub(crate) proof fn lemma_pieces_some(s: Seq<char>, c: char)
    ensures
        pieces(s, c).len() > 0,
{
}

/// The first of two or more joined texts stands before the separator.
pub(crate) proof fn lemma_joined_first(a: Seq<char>, others: Seq<Seq<char>>, sep: Seq<char>)
    requires
        others.len() > 0,
    ensures
        joined(seq![a] + others, sep) == a + sep + joined(others, sep),
    decreases others.len(),
{
    let all = seq![a] + others;
    assert(all.drop_last() == seq![a] + others.drop_last());
    assert(all.last() == others.last());
    if others.len() == 1 {
        assert(others.drop_last() == Seq::<Seq<char>>::empty());
        assert(seq![a] + others.drop_last() == seq![a]);
        assert(joined(seq![a], sep) == a);
        assert(joined(all, sep) == joined(all.drop_last(), sep) + sep + all.last());
    } else {
        lemma_joined_first(a, others.drop_last(), sep);
        assert(joined(all, sep) =~= a + sep + joined(others, sep));
    }
}

/// Joined texts stand in their order, with the separator between two and nowhere else.
pub proof fn joined_texts_keep_their_order(
    a: Seq<char>,
    others: Seq<Seq<char>>,
    sep: Seq<char>,
)
    ensures
        joined(Seq::empty(), sep) == Seq::<char>::empty(),
        joined(seq![a], sep) == a,
        others.len() > 0 ==> joined(seq![a] + others, sep) == a + sep + joined(others, sep),
        others.len() > 0 ==> joined(others.push(a), sep) == joined(others, sep) + sep + a,
{
    if others.len() > 0 {
        lemma_joined_first(a, others, sep);
        assert(others.push(a).drop_last() == others);
    }
}

/// The part of a list with one text, or none where that text is blank.
pub open spec fn one_if_filled(p: Seq<char>) -> Seq<Seq<char>> {
    if trimmed(p).len() > 0 {
        seq![trimmed(p)]
    } else {
        Seq::empty()
    }
}

pub(crate) proof fn lemma_filled_first(a: Seq<char>, others: Seq<Seq<char>>)
    ensures
        filled(seq![a] + others) == one_if_filled(a) + filled(others),
        filled(seq![a]) == one_if_filled(a),
    decreases others.len(),
{
    reveal(Seq::filter);
    let none = Seq::<Seq<char>>::empty();
    assert(filled(none) == none);
    lemma_filled_push(none, a);
    assert(none.push(a) == seq![a]);
    assert(filled(seq![a]) =~= one_if_filled(a));
    if others.len() == 0 {
        assert(seq![a] + others == seq![a]);
        assert(others == none);
        assert(one_if_filled(a) + filled(others) =~= one_if_filled(a));
    } else {
        let o = others.drop_last();
        lemma_filled_first(a, o);
        lemma_filled_push(seq![a] + o, others.last());
        lemma_filled_push(o, others.last());
        assert((seq![a] + o).push(others.last()) == seq![a] + others);
        assert(o.push(others.last()) == others);
        assert(filled(seq![a] + others) =~= one_if_filled(a) + filled(others));
    }
}

/// The lines of a text: a line that is not blank comes trimmed, a blank one not at all, and then
/// come the lines of the rest.
pub proof fn lines_come_in_their_order(a: Seq<char>, rest: Seq<char>)
    requires
        !a.contains('\n'),
    ensures
        filled_lines(a) == one_if_filled(a),
        filled_lines(a + seq!['\n'] + rest) == one_if_filled(a) + filled_lines(rest),
{
    pieces_stand_between(a, '\n', rest);
    lemma_filled_first(a, pieces(rest, '\n'));
}

/// White space before a text, blank lines included, does not matter to its lines.
pub proof fn leading_white_space_adds_no_line(l: Seq<char>, s: Seq<char>)
    requires
        is_blank(l),
    ensures
        filled_lines(l + s) == filled_lines(s),
    decreases l.len(),
{
    if l.len() == 0 {
        assert(l + s == s);
    } else {
        let c = l.last();
        let t = seq![c] + s;
        leading_white_space_adds_no_line(l.drop_last(), t);
        assert(l.drop_last() + t == l + s);
        if c == '\n' {
            let none = Seq::<char>::empty();
            lines_come_in_their_order(none, s);
            assert(none + seq!['\n'] + s == t);
            assert(one_if_filled(none) + filled_lines(s) == filled_lines(s));
        } else {
            lemma_first_of(s, '\n');
            let i = first_of(s, '\n') as int;
            let a = s.take(i);
            assert(!a.contains('\n')) by {
                if a.contains('\n') {
                    let x = choose|x: int| 0 <= x < a.len() && a[x] == '\n';
                    assert(s[x] == '\n');
                }
            }
            let b = seq![c] + a;
            assert(!b.contains('\n')) by {
                if b.contains('\n') {
                    let x = choose|x: int| 0 <= x < b.len() && b[x] == '\n';
                    if x > 0 {
                        assert(a[x - 1] == '\n');
                    }
                }
            }
            outer_white_space_does_not_matter(seq![c], a, Seq::empty());
            assert(seq![c] + a + Seq::<char>::empty() == b);
            if i < s.len() {
                let rest = s.skip(i + 1);
                assert(a + seq!['\n'] + rest == s);
                assert(b + seq!['\n'] + rest == t);
                lines_come_in_their_order(a, rest);
                lines_come_in_their_order(b, rest);
            } else {
                assert(a == s && b == t);
                lines_come_in_their_order(a, Seq::empty());
                lines_come_in_their_order(b, Seq::empty());
            }
        }
    }
}

/// A blank text has no lines.
pub proof fn blank_text_has_no_lines(s: Seq<char>)
    requires
        is_blank(s),
    ensures
        filled_lines(s).len() == 0,
{
    let none = Seq::<char>::empty();
    leading_white_space_adds_no_line(s, none);
    assert(s + none == s);
    lines_come_in_their_order(none, none);
}

} // verus!
