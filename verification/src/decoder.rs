//! The incremental decoder for the streamed response body.
//!
//! [`SseDecoder`] consumes the byte chunks the transport delivers, buffers
//! partial trailing lines across reads, and hands out the decoded fragments
//! of each completed line — and the terminal marker, once reached — in
//! arrival order.  Its state is tied to the spec model in [`crate::sse`].

use vstd::prelude::*;

use crate::sse::{
    LineEvent, data_prefix, delta_content_of, done_marker, done_text, feed_done, feed_emits,
    feed_tail, first_nl, lemma_feed_append, lemma_feed_done_stable, lemma_first_nl_at, line_event,
    stream_done, stream_emits,
};

verus! {

/// The views of a sequence of emitted strings.
pub open spec fn string_views(ss: Seq<String>) -> Seq<Seq<char>> {
    ss.map_values(|s: String| s@)
}

proof fn lemma_views_push(ss: Seq<String>, s: String)
    ensures
        string_views(ss.push(s)) == string_views(ss).push(s@),
{
    assert(string_views(ss.push(s)) =~= string_views(ss).push(s@));
}

/// Relies on `serde_json::from_slice::<serde_json::Value>`, on
/// `serde_json::Value`'s indexing and on `Value::as_str`: the payload parses
/// to the same JSON value on every call, indexing a missing member yields
/// null, and `as_str` returns the string at `choices[0].delta.content`
/// exactly when one is there.  The whole result is thus the function of the
/// payload bytes named `delta_content_of`.
#[verifier::external_body]
fn parse_delta_content(payload: &[u8]) -> (r: Option<String>)
    ensures
        r is Some <==> delta_content_of(payload@) is Some,
        r matches Some(s) ==> delta_content_of(payload@) == Some(s@),
{
    match serde_json::from_slice::<serde_json::Value>(payload) {
        Ok(value) => value["choices"][0]["delta"]["content"].as_str().map(|s| s.to_owned()),
        Err(_) => None,
    }
}

/// Append the bytes of `src` to `dst`.
fn extend_bytes(dst: &mut Vec<u8>, src: &[u8])
    ensures
        final(dst)@ == old(dst)@ + src@,
{
    let mut i: usize = 0;
    while i < src.len()
        invariant
            i <= src@.len(),
            dst@ == old(dst)@ + src@.take(i as int),
        decreases src@.len() - i,
    {
        dst.push(src[i]);
        i = i + 1;
        proof {
            assert(old(dst)@ + src@.take(i as int) =~= (old(dst)@ + src@.take(i - 1)).push(
                src@[i - 1],
            ));
        }
    }
    proof {
        assert(src@.take(src@.len() as int) =~= src@);
    }
}

/// The index of the first line feed of `v` at or after `from`, or `v.len()`
/// if there is none.
fn find_nl(v: &Vec<u8>, from: usize) -> (r: usize)
    requires
        from <= v@.len(),
    ensures
        from <= r <= v@.len(),
        r - from == first_nl(v@.skip(from as int)),
{
    let mut j = from;
    while j < v.len() && *vstd::slice::slice_index_get(v.as_slice(), j) != 10
        invariant
            from <= j <= v@.len(),
            forall|k: int| from <= k < j ==> v@[k] != 10u8,
        decreases v@.len() - j,
    {
        j = j + 1;
    }
    proof {
        let s = v@.skip(from as int);
        assert forall|k: int| 0 <= k < j - from implies s[k] != 10u8 by {
            assert(v@[from + k] != 10u8);
        }
        assert(j < v@.len() ==> s[j - from] == 10u8);
        lemma_first_nl_at(s, j - from);
    }
    j
}

/// Whether `line` begins with the event-data prefix `"data: "`.
fn has_data_prefix(line: &[u8]) -> (r: bool)
    ensures
        r == (line@.len() >= 6 && line@.take(6) == data_prefix()),
{
    if line.len() < 6 {
        return false;
    }
    let r = *vstd::slice::slice_index_get(line, 0) == 100
        && *vstd::slice::slice_index_get(line, 1) == 97
        && *vstd::slice::slice_index_get(line, 2) == 116
        && *vstd::slice::slice_index_get(line, 3) == 97
        && *vstd::slice::slice_index_get(line, 4) == 58
        && *vstd::slice::slice_index_get(line, 5) == 32;
    proof {
        if r {
            assert(line@.take(6) =~= data_prefix());
        } else if line@.take(6) == data_prefix() {
            assert(line@[0] == data_prefix()[0]);
            assert(line@[1] == data_prefix()[1]);
            assert(line@[2] == data_prefix()[2]);
            assert(line@[3] == data_prefix()[3]);
            assert(line@[4] == data_prefix()[4]);
            assert(line@[5] == data_prefix()[5]);
        }
    }
    r
}

/// Whether `payload` is exactly the terminal marker `"[DONE]"`.
fn is_done_marker(payload: &[u8]) -> (r: bool)
    ensures
        r == (payload@ == done_marker()),
{
    if payload.len() != 6 {
        proof {
            if payload@ == done_marker() {
                assert(payload@.len() == 6);
            }
        }
        return false;
    }
    let r = *vstd::slice::slice_index_get(payload, 0) == 91
        && *vstd::slice::slice_index_get(payload, 1) == 68
        && *vstd::slice::slice_index_get(payload, 2) == 79
        && *vstd::slice::slice_index_get(payload, 3) == 78
        && *vstd::slice::slice_index_get(payload, 4) == 69
        && *vstd::slice::slice_index_get(payload, 5) == 93;
    proof {
        if r {
            assert(payload@ =~= done_marker());
        } else if payload@ == done_marker() {
            assert(payload@[0] == done_marker()[0]);
            assert(payload@[1] == done_marker()[1]);
            assert(payload@[2] == done_marker()[2]);
            assert(payload@[3] == done_marker()[3]);
            assert(payload@[4] == done_marker()[4]);
            assert(payload@[5] == done_marker()[5]);
        }
    }
    r
}

/// The incremental decoder: a line buffer, a terminal flag, and the ghost
/// record of every byte consumed and every string handed out so far.
pub struct SseDecoder {
    /// The bytes after the last line feed seen: a partial line kept across
    /// reads.
    pub buf: Vec<u8>,
    /// Whether a terminal line has been decoded.
    pub done: bool,
    /// Every byte this decoder has consumed, in order.
    pub consumed: Ghost<Seq<u8>>,
    /// The view of every string this decoder has handed out, in order.
    pub emitted: Ghost<Seq<Seq<char>>>,
}

impl SseDecoder {
    /// The decoder's state is exactly what the spec model says of the bytes
    /// consumed so far.
    pub open spec fn wf(self) -> bool {
        &&& self.emitted@ == feed_emits(self.consumed@)
        &&& self.done == feed_done(self.consumed@)
        &&& (!self.done ==> self.buf@ == feed_tail(self.consumed@))
    }

    /// A fresh decoder: nothing consumed, nothing emitted.
    pub fn new() -> (d: SseDecoder)
        ensures
            d.wf(),
            d.consumed@ == Seq::<u8>::empty(),
            d.emitted@ == Seq::<Seq<char>>::empty(),
            !d.done,
    {
        SseDecoder {
            buf: Vec::new(),
            done: false,
            consumed: Ghost(Seq::empty()),
            emitted: Ghost(Seq::empty()),
        }
    }

    /// Consume one chunk as the transport delivered it.  The returned
    /// strings are the emissions of every line completed by this chunk, in
    /// order — each decoded fragment, and the terminal marker if a terminal
    /// line is reached, after which the rest of the chunk is discarded.
    pub fn push_chunk(&mut self, chunk: &[u8]) -> (out: Vec<String>)
        requires
            old(self).wf(),
            !old(self).done,
        ensures
            final(self).wf(),
            final(self).consumed@ == old(self).consumed@ + chunk@,
            final(self).emitted@ == old(self).emitted@ + string_views(out@),
            final(self).done == feed_done(old(self).consumed@ + chunk@),
    {
        let ghost prior_consumed = self.consumed@;
        let ghost prior_emitted = self.emitted@;

        let mut work: Vec<u8> = Vec::new();
        extend_bytes(&mut work, self.buf.as_slice());
        extend_bytes(&mut work, chunk);
        let ghost all = work@;
        proof {
            assert(all == old(self).buf@ + chunk@);
        }

        let mut out: Vec<String> = Vec::new();
        let mut pos: usize = 0;
        let mut terminal: bool = false;
        let mut reached_end: bool = false;

        proof {
            assert(all.skip(0) =~= all);
            assert(string_views(Seq::<String>::empty()) + feed_emits(all) =~= feed_emits(all));
        }
        while !terminal && !reached_end
            invariant
                work@ == all,
                pos <= all.len(),
                !terminal && !reached_end ==> {
                    &&& feed_emits(all) == string_views(out@) + feed_emits(all.skip(pos as int))
                    &&& feed_done(all) == feed_done(all.skip(pos as int))
                    &&& feed_tail(all) == feed_tail(all.skip(pos as int))
                },
                terminal ==> feed_emits(all) == string_views(out@) && feed_done(all),
                reached_end ==> {
                    &&& feed_emits(all) == string_views(out@)
                    &&& !feed_done(all)
                    &&& feed_tail(all) == all.skip(pos as int)
                    &&& first_nl(all.skip(pos as int)) == all.len() - pos
                },
            decreases (if terminal || reached_end { 0int } else { 1int }), all.len() - pos,
        {
            let ghost rem = all.skip(pos as int);
            let j = find_nl(&work, pos);
            if j == work.len() {
                reached_end = true;
                proof {
                    assert(first_nl(rem) == rem.len());
                    assert(feed_emits(rem) == Seq::<Seq<char>>::empty());
                    assert(string_views(out@) + feed_emits(rem) =~= string_views(out@));
                    assert(!feed_done(rem));
                    assert(feed_tail(rem) == rem);
                }
            } else {
                proof {
                    assert(first_nl(rem) == j - pos);
                    assert(first_nl(rem) < rem.len());
                    assert(rem.take(j - pos) =~= all.subrange(pos as int, j as int));
                    assert(rem.skip(j - pos + 1) =~= all.skip(j as int + 1));
                }
                let line = vstd::slice::slice_subrange(work.as_slice(), pos, j);
                let ghost lv = line@;
                proof {
                    assert(lv == rem.take(j - pos));
                }
                if has_data_prefix(line) {
                    let payload = vstd::slice::slice_subrange(line, 6, line.len());
                    proof {
                        assert(payload@ == lv.skip(6));
                    }
                    if is_done_marker(payload) {
                        proof {
                            assert(line_event(lv) is Terminal);
                            assert(feed_emits(rem) == seq![done_text()]);
                            assert(feed_done(rem));
                        }
                        let marker = "[DONE]".to_owned();
                        proof {
                            lemma_views_push(out@, marker);
                            assert(string_views(out@) + seq![done_text()] =~= string_views(
                                out@.push(marker),
                            ));
                        }
                        out.push(marker);
                        terminal = true;
                    } else {
                        match parse_delta_content(payload) {
                            Some(s) => {
                                proof {
                                    assert(line_event(lv) == LineEvent::Fragment(s@));
                                    assert(feed_emits(rem) == seq![s@] + feed_emits(
                                        rem.skip(j - pos + 1),
                                    ));
                                    lemma_views_push(out@, s);
                                    assert(string_views(out@) + (seq![s@] + feed_emits(
                                        all.skip(j as int + 1),
                                    )) =~= string_views(out@.push(s)) + feed_emits(
                                        all.skip(j as int + 1),
                                    ));
                                }
                                out.push(s);
                            },
                            None => {
                                proof {
                                    assert(line_event(lv) is Skip);
                                }
                            },
                        }
                        pos = j + 1;
                    }
                } else {
                    proof {
                        assert(line_event(lv) is Skip);
                    }
                    pos = j + 1;
                }
            }
        }

        if terminal {
            self.done = true;
            self.buf = Vec::new();
        } else {
            let tail = vstd::slice::slice_subrange(work.as_slice(), pos, work.len());
            self.buf = vstd::slice::slice_to_vec(tail);
        }
        self.consumed = Ghost(prior_consumed + chunk@);
        self.emitted = Ghost(prior_emitted + string_views(out@));

        proof {
            lemma_feed_append(prior_consumed, chunk@);
            assert(feed_tail(prior_consumed) + chunk@ == all);
            assert(feed_emits(prior_consumed + chunk@) == prior_emitted + feed_emits(all));
            assert(feed_done(prior_consumed + chunk@) == feed_done(all));
            assert(feed_tail(prior_consumed + chunk@) == feed_tail(all));
        }
        out
    }

    /// Tell the decoder the transport has closed: the buffered trailing
    /// segment, if any, is processed as a final candidate line.  Afterwards
    /// the emissions are exactly those of the whole byte stream, and `done`
    /// says whether the terminal marker was ever reached.
    pub fn finish(&mut self) -> (out: Vec<String>)
        requires
            old(self).wf(),
            !old(self).done,
        ensures
            final(self).wf(),
            final(self).emitted@ == old(self).emitted@ + string_views(out@),
            final(self).emitted@ == stream_emits(old(self).consumed@),
            final(self).done == stream_done(old(self).consumed@),
    {
        let mut nl: Vec<u8> = Vec::new();
        nl.push(10);
        let ghost prior = self.consumed@;
        let out = self.push_chunk(nl.as_slice());
        proof {
            assert(prior + nl@ =~= prior.push(10u8));
        }
        out
    }
}

/// The concatenation of the byte chunks a transport delivered.
pub open spec fn chunk_bytes(chunks: Seq<Vec<u8>>) -> Seq<u8>
    decreases chunks.len(),
{
    if chunks.len() == 0 {
        Seq::empty()
    } else {
        chunk_bytes(chunks.drop_last()) + chunks.last()@
    }
}

/// `chunk_bytes` peels chunks off the front as well as off the back.
pub proof fn lemma_chunk_bytes_first(chunks: Seq<Vec<u8>>)
    requires
        chunks.len() > 0,
    ensures
        chunk_bytes(chunks) == chunks.first()@ + chunk_bytes(chunks.drop_first()),
    decreases chunks.len(),
{
    if chunks.len() == 1 {
        assert(chunks.drop_last() =~= Seq::<Vec<u8>>::empty());
        assert(chunks.drop_first() =~= Seq::<Vec<u8>>::empty());
        assert(Seq::<u8>::empty() + chunks.last()@ =~= chunks.first()@ + Seq::<u8>::empty());
    } else {
        lemma_chunk_bytes_first(chunks.drop_last());
        assert(chunks.drop_last().drop_first() =~= chunks.drop_first().drop_last());
        assert(chunks.drop_first().last() == chunks.last());
        assert((chunks.first()@ + chunk_bytes(chunks.drop_first().drop_last()))
            + chunks.last()@ =~= chunks.first()@ + (chunk_bytes(
            chunks.drop_first().drop_last(),
        ) + chunks.drop_first().last()@));
    }
}

/// Decode a byte stream delivered as a sequence of chunks, as one closed
/// run: every emission of the stream in order, and whether the terminal
/// marker was reached.  The result depends on the concatenated bytes alone,
/// not on how the transport cut them apart.
pub fn decode_stream(chunks: &Vec<Vec<u8>>) -> (r: (Vec<String>, bool))
    ensures
        string_views(r.0@) == stream_emits(chunk_bytes(chunks@)),
        r.1 == stream_done(chunk_bytes(chunks@)),
{
    let mut data: Vec<u8> = Vec::new();
    let mut i: usize = 0;
    while i < chunks.len()
        invariant
            i <= chunks@.len(),
            data@ == chunk_bytes(chunks@.take(i as int)),
        decreases chunks@.len() - i,
    {
        let chunk = &chunks[i];
        extend_bytes(&mut data, chunk.as_slice());
        i = i + 1;
        proof {
            assert(chunks@.take(i as int).drop_last() =~= chunks@.take(i - 1));
            assert(chunks@.take(i as int).last() == chunks@[i - 1]);
        }
    }
    proof {
        assert(chunks@.take(chunks@.len() as int) =~= chunks@);
    }

    let mut d = SseDecoder::new();
    let mut out = d.push_chunk(data.as_slice());
    proof {
        assert(Seq::<u8>::empty() + data@ =~= data@);
        assert(Seq::<Seq<char>>::empty() + string_views(out@) =~= string_views(out@));
    }
    if d.done {
        proof {
            lemma_feed_done_stable(data@, seq![10u8]);
            assert(data@ + seq![10u8] =~= data@.push(10u8));
        }
        (out, true)
    } else {
        let mut more = d.finish();
        proof {
            assert(string_views(out@) + string_views(more@) =~= string_views(out@ + more@));
        }
        out.append(&mut more);
        (out, d.done)
    }
}

/// Law: decoding is a function of the received bytes alone — two decoders
/// that have consumed the same byte stream have handed out the same
/// emissions and agree on having seen the terminal marker.
pub proof fn lemma_decode_deterministic(d1: SseDecoder, d2: SseDecoder)
    requires
        d1.wf(),
        d2.wf(),
        d1.consumed@ == d2.consumed@,
    ensures
        d1.emitted@ == d2.emitted@,
        d1.done == d2.done,
{
}

} // verus!
