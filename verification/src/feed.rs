//! The stream of lines to which a monitor subscribes.

use vstd::prelude::*;

use crate::text;

verus! {

use crate::text::{
    filled, first_of, lemma_first_of, lemma_first_of_is, pieces, texts, trimmed, without_trailing,
};
use crate::text_laws::{lemma_filled_first, pieces_stand_between, trailing_run_is_cut};
use vstd::utf8::{decode_utf8, valid_utf8};

/// The address of the JSON stream that belongs to `url`.
pub open spec fn stream_address(url: Seq<char>) -> Seq<char> {
    if "/json"@.is_suffix_of(url) {
        url
    } else {
        without_trailing(url, '/') + "/json"@
    }
}

/// The address of the JSON stream that belongs to `url`.
pub fn subscription_url(url: &str) -> (r: String)
    ensures
        r@ == stream_address(url@),
{
    if text::ends_with(url, "/json") {
        url.to_owned()
    } else {
        let mut r = text::trim_end_matches(url, '/').to_owned();
        r.append("/json");
        r
    }
}

/// The address of a stream ends in `/json` and is the address of itself.
pub proof fn stream_address_is_final(url: Seq<char>)
    ensures
        "/json"@.is_suffix_of(stream_address(url)),
        stream_address(stream_address(url)) == stream_address(url),
{
    let a = stream_address(url);
    if !"/json"@.is_suffix_of(url) {
        assert(a.subrange(a.len() - "/json"@.len(), a.len() as int) == "/json"@);
    }
}

/// The lines that a stretch of text completes, trimmed, without empty ones.
pub open spec fn complete_lines(s: Seq<char>) -> Seq<Seq<char>> {
    filled(pieces(s, '\n').drop_last())
}

/// What follows the last line end of a stretch of text.
pub open spec fn unfinished(s: Seq<char>) -> Seq<char> {
    pieces(s, '\n').last()
}

/// The text that `String::from_utf8_lossy` makes of some bytes.
pub uninterp spec fn lossy_text(bytes: Seq<u8>) -> Seq<char>;

/// `String::from_utf8_lossy`: bytes as text. The text depends on the bytes alone, and is the one
/// that they encode where they are UTF-8; else stretches that are not are replaced.
#[verifier::external_body]
fn to_text(bytes: &Vec<u8>) -> (r: String)
    ensures
        r@ == lossy_text(bytes@),
        valid_utf8(bytes@) ==> r@ == decode_utf8(bytes@),
{
    String::from_utf8_lossy(bytes).into_owned()
}

/// What happens to a subscription.
#[derive(Debug)]
pub enum FeedEvent {
    /// The server has begun to answer.
    Opened,
    /// The server cannot be reached, or has refused.
    Refused,
    /// A part of the answer has come.
    Chunk(Vec<u8>),
    /// A part of the answer could not be read.
    Damaged,
    /// The answer has ended.
    Ended,
}

/// What a subscriber does next.
#[derive(Debug, Clone, Copy, PartialEq, Eq, Structural)]
pub enum FeedAction {
    /// Read on.
    Read,
    /// Wait for so many seconds, and connect anew.
    Pause(u64),
}

/// A subscriber: it holds the line that has begun and not ended.
#[derive(Debug)]
pub struct FeedReader {
    pending: String,
}

impl View for FeedReader {
    type V = Seq<char>;

    closed spec fn view(&self) -> Seq<char> {
        self.pending@
    }
}

impl FeedReader {
    /// A subscriber that has read nothing.
    pub fn new() -> (r: Self)
        ensures
            r@ == Seq::<char>::empty(),
    {
        FeedReader { pending: String::new() }
    }

    /// Takes some text in and gives the lines that it completes.
    pub fn push_text(&mut self, text: &str) -> (r: Vec<String>)
        ensures
            texts(r@) == complete_lines(old(self)@ + text@),
            final(self)@ == unfinished(old(self)@ + text@),
    {
        let ghost all = self@ + text@;
        let mut buf = self.pending.clone();
        buf.append(text);
        let parts = text::split(buf.as_str(), '\n');
        let ghost ps = pieces(all, '\n');
        proof {
            lemma_pieces(all, '\n');
            assert(texts(parts@) == ps);
        }
        let n: usize = parts.len() - 1;
        let out = text::fill(&parts, n);
        assert(ps.take(n as int) == ps.drop_last());
        self.pending = parts[n].clone();
        out
    }

    /// What a subscriber makes of an event: the lines that it completes, and what is next. A
    /// part that is UTF-8 counts as the text that it encodes. An answer starts without a pending
    /// line. After its end two seconds pass; where there is none
    /// five seconds pass before these two.
    pub fn step(&mut self, event: FeedEvent) -> (r: (Vec<String>, FeedAction))
        ensures
            match event {
                FeedEvent::Opened => {
                    &&& final(self)@ == Seq::<char>::empty()
                    &&& r.0@.len() == 0
                    &&& r.1 == FeedAction::Read
                },
                FeedEvent::Refused => {
                    &&& final(self)@ == old(self)@
                    &&& r.0@.len() == 0
                    &&& r.1 == FeedAction::Pause(7)
                },
                FeedEvent::Chunk(bytes) => {
                    &&& final(self)@ == unfinished(old(self)@ + lossy_text(bytes@))
                    &&& texts(r.0@) == complete_lines(old(self)@ + lossy_text(bytes@))
                    &&& valid_utf8(bytes@) ==> lossy_text(bytes@) == decode_utf8(bytes@)
                    &&& r.1 == FeedAction::Read
                },
                FeedEvent::Damaged => {
                    &&& final(self)@ == old(self)@
                    &&& r.0@.len() == 0
                    &&& r.1 == FeedAction::Read
                },
                FeedEvent::Ended => {
                    &&& final(self)@ == old(self)@
                    &&& r.0@.len() == 0
                    &&& r.1 == FeedAction::Pause(2)
                },
            },
    {
        match event {
            FeedEvent::Opened => {
                self.pending = String::new();
                (Vec::new(), FeedAction::Read)
            },
            FeedEvent::Refused => (Vec::new(), FeedAction::Pause(7)),
            FeedEvent::Chunk(bytes) => {
                let text = to_text(&bytes);
                (self.push_text(text.as_str()), FeedAction::Read)
            },
            FeedEvent::Damaged => (Vec::new(), FeedAction::Read),
            FeedEvent::Ended => (Vec::new(), FeedAction::Pause(2)),
        }
    }
}

/// There is always a last piece, and it is free of `c`.
proof fn lemma_pieces(s: Seq<char>, c: char)
    ensures
        pieces(s, c).len() > 0,
        !pieces(s, c).last().contains(c),
    decreases s.len(),
{
    lemma_first_of(s, c);
    let i = first_of(s, c) as int;
    if i < s.len() {
        lemma_pieces(s.skip(i + 1), c);
    }
}

/// Text after a stretch continues its last piece.
proof fn lemma_pieces_add(a: Seq<char>, b: Seq<char>, c: char)
    ensures
        pieces(a + b, c) == pieces(a, c).drop_last() + pieces(pieces(a, c).last() + b, c),
    decreases a.len(),
{
    lemma_first_of(a, c);
    lemma_pieces(a, c);
    let i = first_of(a, c) as int;
    if i < a.len() {
        let rest = a.skip(i + 1);
        assert forall|j: int| 0 <= j < i implies (a + b)[j] != c by {
            assert((a + b)[j] == a[j]);
        }
        assert((a + b)[i] == a[i]);
        lemma_first_of_is(a + b, c, i);
        assert((a + b).take(i) == a.take(i));
        assert((a + b).skip(i + 1) == rest + b);
        lemma_pieces_add(rest, b, c);
        lemma_pieces(rest, c);
        assert((seq![a.take(i)] + pieces(rest, c)).drop_last() == seq![a.take(i)] + pieces(
            rest,
            c,
        ).drop_last());
        assert(pieces(a + b, c) =~= pieces(a, c).drop_last() + pieces(pieces(a, c).last() + b, c));
    } else {
        assert(pieces(a, c).drop_last() == Seq::<Seq<char>>::empty());
        assert(pieces(a + b, c) =~= pieces(a, c).drop_last() + pieces(a + b, c));
    }
}

proof fn lemma_filled_add(a: Seq<Seq<char>>, b: Seq<Seq<char>>)
    ensures
        filled(a + b) == filled(a) + filled(b),
    decreases b.len(),
{
    reveal(Seq::filter);
    if b.len() == 0 {
        assert(a + b == a);
        assert(filled(b) == Seq::<Seq<char>>::empty());
        assert(filled(a) + filled(b) == filled(a));
    } else {
        let b0 = b.drop_last();
        lemma_filled_add(a, b0);
        text::lemma_filled_push(a + b0, b.last());
        text::lemma_filled_push(b0, b.last());
        assert((a + b0).push(b.last()) == a + b);
        assert(b0.push(b.last()) == b);
        assert(filled(a + b) =~= filled(a) + filled(b));
    }
}

/// How a stream is cut into parts does not matter: two texts, one after the other, complete the
/// same lines and leave the same line unfinished as the two as one.
pub proof fn parts_do_not_matter(pending: Seq<char>, a: Seq<char>, b: Seq<char>)
    ensures
        complete_lines(pending + (a + b)) == complete_lines(pending + a) + complete_lines(
            unfinished(pending + a) + b,
        ),
        unfinished(pending + (a + b)) == unfinished(unfinished(pending + a) + b),
{
    let x = pending + a;
    let rest = unfinished(x) + b;
    assert(pending + (a + b) == x + b);
    lemma_pieces_add(x, b, '\n');
    lemma_pieces(rest, '\n');
    assert((pieces(x, '\n').drop_last() + pieces(rest, '\n')).drop_last() == pieces(
        x,
        '\n',
    ).drop_last() + pieces(rest, '\n').drop_last());
    lemma_filled_add(pieces(x, '\n').drop_last(), pieces(rest, '\n').drop_last());
}

/// What is left unfinished holds no line end.
pub proof fn unfinished_has_no_line_end(s: Seq<char>)
    ensures
        !unfinished(s).contains('\n'),
{
    lemma_pieces(s, '\n');
}

/// A line that is handed on is not empty and has no white space at its ends.
pub proof fn handed_on_lines_are_filled(s: Seq<char>, i: int)
    requires
        0 <= i < complete_lines(s).len(),
    ensures
        complete_lines(s)[i].len() > 0,
        trimmed(complete_lines(s)[i]) == complete_lines(s)[i],
{
    lemma_filled(pieces(s, '\n').drop_last(), i);
}

proof fn lemma_filled(parts: Seq<Seq<char>>, i: int)
    requires
        0 <= i < filled(parts).len(),
    ensures
        filled(parts)[i].len() > 0,
        trimmed(filled(parts)[i]) == filled(parts)[i],
    decreases parts.len(),
{
    reveal(Seq::filter);
    if parts.len() > 0 {
        let rest = parts.drop_last();
        text::lemma_filled_push(rest, parts.last());
        assert(rest.push(parts.last()) == parts);
        if i < filled(rest).len() {
            lemma_filled(rest, i);
        } else {
            text::trimming_twice_is_trimming(parts.last());
        }
    }
}

/// The address of a stream: as it is where it ends in `/json`; else without any slashes at its end
/// and with `/json` after that.
pub proof fn stream_addresses_end_in_json(base: Seq<char>, slashes: nat)
    ensures
        stream_address(base + "/json"@) == base + "/json"@,
        ({
            let url = base + Seq::new(slashes, |i: int| '/');
            (base.len() > 0 ==> base.last() != '/') && !"/json"@.is_suffix_of(url)
                ==> stream_address(url) == base + "/json"@
        }),
{
    let whole = base + "/json"@;
    assert(whole.subrange(whole.len() - "/json"@.len(), whole.len() as int) == "/json"@);
    if base.len() > 0 ==> base.last() != '/' {
        trailing_run_is_cut(base, '/', slashes);
    }
}

/// The lines that a text completes. Up to the first line end it completes one, which is handed on
/// without the white space around it, or not at all where it is blank; then come those of the
/// rest. A text without a line end completes none, and is pending whole.
pub proof fn lines_are_completed_in_their_order(line: Seq<char>, rest: Seq<char>)
    requires
        !line.contains('\n'),
    ensures
        complete_lines(line).len() == 0,
        unfinished(line) == line,
        complete_lines(line + seq!['\n'] + rest) == (if trimmed(line).len() > 0 {
            seq![trimmed(line)]
        } else {
            Seq::empty()
        }) + complete_lines(rest),
        unfinished(line + seq!['\n'] + rest) == unfinished(rest),
{
    reveal(Seq::filter);
    pieces_stand_between(line, '\n', rest);
    lemma_pieces(rest, '\n');
    let ps = pieces(rest, '\n');
    assert(seq![line].drop_last() == Seq::<Seq<char>>::empty());
    assert((seq![line] + ps).drop_last() == seq![line] + ps.drop_last());
    assert((seq![line] + ps).last() == ps.last());
    lemma_filled_first(line, ps.drop_last());
}

} // verus!
