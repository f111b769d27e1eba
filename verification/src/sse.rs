//! The mathematical model of the server-sent-event framing.
//!
//! A byte stream is split on line feeds into candidate lines.  A line that
//! carries the event-data prefix holds either the terminal marker or a JSON
//! delta payload; every other line is discarded.  The spec functions here say
//! which emissions a byte sequence produces, whether it reaches the terminal
//! marker, and which trailing bytes stay buffered as an incomplete line.

use vstd::prelude::*;

verus! {

/// What a single candidate line contributes to the output stream.
pub enum LineEvent {
    /// The line carries no payload, or its payload does not decode: it is
    /// discarded silently.
    Skip,
    /// The line's payload is the terminal marker: the stream ends here.
    Terminal,
    /// The line's payload decodes to a text fragment with this content.
    Fragment(Seq<char>),
}

/// The name for what `serde_json` extracts from a data-line payload: the
/// string at `choices[0].delta.content` when the payload parses as JSON and
/// carries one there, and nothing otherwise.  The result is a function of the
/// payload bytes alone.
pub uninterp spec fn delta_content_of(payload: Seq<u8>) -> Option<Seq<char>>;

/// The bytes of the event-data prefix, `"data: "`.
pub open spec fn data_prefix() -> Seq<u8> {
    seq![100u8, 97u8, 116u8, 97u8, 58u8, 32u8]
}

/// The payload bytes of the terminal marker, `"[DONE]"`.
pub open spec fn done_marker() -> Seq<u8> {
    seq![91u8, 68u8, 79u8, 78u8, 69u8, 93u8]
}

/// The terminal marker as the sink receives it.
pub open spec fn done_text() -> Seq<char> {
    "[DONE]"@
}

/// How one candidate line is classified.  The terminal marker is recognized
/// before any JSON decoding is attempted.
pub open spec fn line_event(line: Seq<u8>) -> LineEvent {
    if line.len() < 6 || line.take(6) != data_prefix() {
        LineEvent::Skip
    } else if line.skip(6) == done_marker() {
        LineEvent::Terminal
    } else {
        match delta_content_of(line.skip(6)) {
            Some(s) => LineEvent::Fragment(s),
            None => LineEvent::Skip,
        }
    }
}

/// The index of the first line feed in `data`, or `data.len()` if there is
/// none.
pub open spec fn first_nl(data: Seq<u8>) -> nat
    decreases data.len(),
{
    if data.len() == 0 {
        0
    } else if data[0] == 10u8 {
        0
    } else {
        1 + first_nl(data.drop_first())
    }
}

/// The emissions produced by the complete lines of `data`, in order: one
/// string per decoded fragment, then the terminal marker text if a terminal
/// line is reached.  Everything after a terminal line is discarded, and a
/// trailing segment without a line feed is not yet processed.
pub open spec fn feed_emits(data: Seq<u8>) -> Seq<Seq<char>>
    decreases data.len(),
{
    if first_nl(data) >= data.len() {
        Seq::empty()
    } else {
        let line = data.take(first_nl(data) as int);
        let rest = data.skip(first_nl(data) as int + 1);
        match line_event(line) {
            LineEvent::Terminal => seq![done_text()],
            LineEvent::Fragment(s) => seq![s] + feed_emits(rest),
            LineEvent::Skip => feed_emits(rest),
        }
    }
}

/// Whether the complete lines of `data` reach a terminal line.
pub open spec fn feed_done(data: Seq<u8>) -> bool
    decreases data.len(),
{
    if first_nl(data) >= data.len() {
        false
    } else {
        let line = data.take(first_nl(data) as int);
        let rest = data.skip(first_nl(data) as int + 1);
        match line_event(line) {
            LineEvent::Terminal => true,
            LineEvent::Fragment(_) => feed_done(rest),
            LineEvent::Skip => feed_done(rest),
        }
    }
}

/// The bytes after the last line feed of `data`: the partial line a decoder
/// must keep buffered across reads.
pub open spec fn feed_tail(data: Seq<u8>) -> Seq<u8>
    decreases data.len(),
{
    if first_nl(data) >= data.len() {
        data
    } else {
        feed_tail(data.skip(first_nl(data) as int + 1))
    }
}

/// The emissions of a whole byte stream once the transport has closed: the
/// trailing segment counts as a final candidate line.
pub open spec fn stream_emits(data: Seq<u8>) -> Seq<Seq<char>> {
    feed_emits(data.push(10u8))
}

/// Whether a whole byte stream reaches the terminal marker.
pub open spec fn stream_done(data: Seq<u8>) -> bool {
    feed_done(data.push(10u8))
}

/// A position with no line feed before it and a line feed (or the end) at it
/// is where `first_nl` points.
pub proof fn lemma_first_nl_at(data: Seq<u8>, i: int)
    requires
        0 <= i <= data.len(),
        forall|k: int| 0 <= k < i ==> data[k] != 10u8,
        i < data.len() ==> data[i] == 10u8,
    ensures
        first_nl(data) == i,
    decreases data.len(),
{
    if data.len() == 0 {
    } else if data[0] == 10u8 {
        assert(i == 0);
    } else {
        assert(i >= 1) by {
            if i == 0 {
                assert(data[0] == 10u8);
            }
        }
        assert forall|k: int| 0 <= k < i - 1 implies data.drop_first()[k] != 10u8 by {
            assert(data[k + 1] != 10u8);
        }
        assert(i - 1 < data.drop_first().len() ==> data.drop_first()[i - 1] == 10u8);
        lemma_first_nl_at(data.drop_first(), i - 1);
    }
}

/// Extending a sequence that already holds a line feed does not move the
/// first one.
pub proof fn lemma_first_nl_append(a: Seq<u8>, b: Seq<u8>)
    requires
        first_nl(a) < a.len(),
    ensures
        first_nl(a + b) == first_nl(a),
    decreases a.len(),
{
    if a[0] == 10u8 {
        assert((a + b)[0] == 10u8);
    } else {
        lemma_first_nl_append(a.drop_first(), b);
        assert(a.drop_first() + b =~= (a + b).drop_first());
        assert((a + b)[0] == a[0]);
    }
}

/// Law: decoding is insensitive to how the transport cuts the byte stream
/// into chunks.  Feeding further bytes to a stream that has not reached the
/// terminal marker appends exactly the emissions of the buffered tail
/// followed by the new bytes.
pub proof fn lemma_feed_append(a: Seq<u8>, b: Seq<u8>)
    requires
        !feed_done(a),
    ensures
        feed_emits(a + b) == feed_emits(a) + feed_emits(feed_tail(a) + b),
        feed_done(a + b) == feed_done(feed_tail(a) + b),
        feed_tail(a + b) == feed_tail(feed_tail(a) + b),
    decreases a.len(),
{
    if first_nl(a) >= a.len() {
        assert(feed_tail(a) == a);
        assert(feed_emits(a) + feed_emits(a + b) =~= feed_emits(a + b));
    } else {
        let i = first_nl(a) as int;
        lemma_first_nl_append(a, b);
        assert((a + b).take(i) =~= a.take(i));
        assert((a + b).skip(i + 1) =~= a.skip(i + 1) + b);
        let rest = a.skip(i + 1);
        match line_event(a.take(i)) {
            LineEvent::Terminal => {
                assert(false);
            },
            LineEvent::Fragment(s) => {
                lemma_feed_append(rest, b);
                assert(seq![s] + (feed_emits(rest) + feed_emits(feed_tail(rest) + b)) =~= (
                seq![s] + feed_emits(rest)) + feed_emits(feed_tail(rest) + b));
            },
            LineEvent::Skip => {
                lemma_feed_append(rest, b);
            },
        }
    }
}

/// Once a stream has reached the terminal marker, whatever else the
/// transport delivers is discarded: the emissions stand.
pub proof fn lemma_feed_done_stable(a: Seq<u8>, b: Seq<u8>)
    requires
        feed_done(a),
    ensures
        feed_emits(a + b) == feed_emits(a),
        feed_done(a + b),
    decreases a.len(),
{
    let i = first_nl(a) as int;
    lemma_first_nl_append(a, b);
    assert((a + b).take(i) =~= a.take(i));
    assert((a + b).skip(i + 1) =~= a.skip(i + 1) + b);
    match line_event(a.take(i)) {
        LineEvent::Terminal => {},
        LineEvent::Fragment(_) => {
            lemma_feed_done_stable(a.skip(i + 1), b);
        },
        LineEvent::Skip => {
            lemma_feed_done_stable(a.skip(i + 1), b);
        },
    }
}

/// Law: a successful run delivers the terminal marker exactly once, after
/// all fragments — it is the last emission of a terminated stream.
pub proof fn lemma_terminal_is_last(data: Seq<u8>)
    requires
        feed_done(data),
    ensures
        feed_emits(data).len() >= 1,
        feed_emits(data).last() == done_text(),
    decreases data.len(),
{
    let i = first_nl(data) as int;
    match line_event(data.take(i)) {
        LineEvent::Terminal => {},
        LineEvent::Fragment(_) => {
            lemma_terminal_is_last(data.skip(i + 1));
        },
        LineEvent::Skip => {
            lemma_terminal_is_last(data.skip(i + 1));
        },
    }
}

/// Law: on a terminated stream the sink receives the terminal marker as its
/// last delivery, after every fragment.
pub proof fn lemma_stream_terminal_last(data: Seq<u8>)
    requires
        stream_done(data),
    ensures
        stream_emits(data).len() >= 1,
        stream_emits(data).last() == done_text(),
{
    lemma_terminal_is_last(data.push(10u8));
}

} // verus!
