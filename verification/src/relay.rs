//! The relay's decisions, one transport event at a time.
//!
//! The surrounding application owns the connection: it resolves the
//! credential, sends the request, awaits each network read, delivers the
//! returned strings to its sink, and stops when a step says so.  Every
//! decision — what a chunk contributes, what the close of the stream means,
//! what a failure surfaces — is taken here, under contract.

use vstd::prelude::*;

use crate::decoder::{SseDecoder, chunk_bytes, lemma_chunk_bytes_first, string_views};
use crate::sse::{feed_done, feed_emits, lemma_feed_done_stable, stream_done, stream_emits};

verus! {

/// Why a run failed.
#[derive(Clone, Debug, PartialEq, Eq)]
pub enum RelayError {
    /// The credential is missing: the run fails before any request is sent.
    ConfigurationError,
    /// The connection failed or was dropped; the text is the transport's
    /// own description.
    TransportError(String),
    /// The stream closed without the terminal marker; fragments already
    /// delivered stand as partial output.
    PrematureTermination,
}

/// What the transport reported on one read.
#[derive(Debug)]
pub enum RelayEvent {
    /// One chunk of response-body bytes arrived.
    Chunk(Vec<u8>),
    /// The response body ended.
    StreamEnd,
    /// The connection failed; the text is the transport's description.
    TransportFailure(String),
}

/// What the application must do after one event: deliver the carried
/// strings to the sink in order, then keep reading, stop in success, or
/// stop and surface the error.
#[derive(Debug)]
pub enum RelayStep {
    Continue(Vec<String>),
    Finished(Vec<String>),
    Failed(Vec<String>, RelayError),
}

/// Check that the credential is resolvable.  Absence is a configuration
/// error surfaced to the caller — never a panic, and the caller makes no
/// network call without the returned value.
pub fn resolve_credential(credential: Option<String>) -> (r: Result<String, RelayError>)
    ensures
        credential is Some ==> (r matches Ok(k) && credential == Some(k)),
        credential is None ==> (r matches Err(e) && e is ConfigurationError),
{
    match credential {
        Some(k) => Ok(k),
        None => Err(RelayError::ConfigurationError),
    }
}

/// One relay invocation: owns its own decoder, and with it its own buffer —
/// concurrent invocations share nothing.
pub struct ChatRelay {
    pub decoder: SseDecoder,
}

impl ChatRelay {
    /// The relay is still reading: its decoder is sound and has not seen
    /// the terminal marker.
    pub open spec fn wf(self) -> bool {
        &&& self.decoder.wf()
        &&& !self.decoder.done
    }

    /// A fresh relay for one run.
    pub fn new() -> (r: ChatRelay)
        ensures
            r.wf(),
            r.decoder.consumed@ == Seq::<u8>::empty(),
            r.decoder.emitted@ == Seq::<Seq<char>>::empty(),
    {
        ChatRelay { decoder: SseDecoder::new() }
    }

    /// Take one transport event.  A chunk's completed lines are decoded and
    /// handed back for the sink; the terminal marker finishes the run; the
    /// close of the stream before the marker is a premature termination; a
    /// transport failure surfaces as such, with nothing retracted.
    pub fn on_event(&mut self, event: RelayEvent) -> (step: RelayStep)
        requires
            old(self).wf(),
        ensures
            match event {
                RelayEvent::Chunk(c) => {
                    let data = old(self).decoder.consumed@ + c@;
                    &&& final(self).decoder.consumed@ == data
                    &&& final(self).decoder.emitted@ == feed_emits(data)
                    &&& (feed_done(data) ==> (step matches RelayStep::Finished(out)
                        && old(self).decoder.emitted@ + string_views(out@) == feed_emits(data)))
                    &&& (!feed_done(data) ==> (step matches RelayStep::Continue(out)
                        && old(self).decoder.emitted@ + string_views(out@) == feed_emits(data)
                        && final(self).wf()))
                },
                RelayEvent::StreamEnd => {
                    let data = old(self).decoder.consumed@;
                    &&& final(self).decoder.emitted@ == stream_emits(data)
                    &&& (stream_done(data) ==> (step matches RelayStep::Finished(out)
                        && old(self).decoder.emitted@ + string_views(out@) == stream_emits(data)))
                    &&& (!stream_done(data) ==> (step matches RelayStep::Failed(out, e)
                        && old(self).decoder.emitted@ + string_views(out@) == stream_emits(data)
                        && e is PrematureTermination))
                },
                RelayEvent::TransportFailure(msg) => {
                    &&& (step matches RelayStep::Failed(out, e) && out@.len() == 0 && e
                        == RelayError::TransportError(msg))
                    &&& *final(self) == *old(self)
                },
            },
    {
        match event {
            RelayEvent::Chunk(c) => {
                let out = self.decoder.push_chunk(c.as_slice());
                if self.decoder.done {
                    RelayStep::Finished(out)
                } else {
                    RelayStep::Continue(out)
                }
            },
            RelayEvent::StreamEnd => {
                let out = self.decoder.finish();
                if self.decoder.done {
                    RelayStep::Finished(out)
                } else {
                    RelayStep::Failed(out, RelayError::PrematureTermination)
                }
            },
            RelayEvent::TransportFailure(msg) => {
                RelayStep::Failed(Vec::new(), RelayError::TransportError(msg))
            },
        }
    }
}

/// The bytes a session has consumed once its events are spent: chunks
/// accumulate until one completes a terminal line, the close of the stream
/// turns the buffered tail into a final candidate line, and a failure stops
/// the reading where it stands.
pub open spec fn session_consumed(data: Seq<u8>, events: Seq<RelayEvent>) -> Seq<u8>
    decreases events.len(),
{
    if events.len() == 0 {
        data
    } else {
        match events[0] {
            RelayEvent::Chunk(c) => {
                let d2 = data + c@;
                if feed_done(d2) {
                    d2
                } else {
                    session_consumed(d2, events.drop_first())
                }
            },
            RelayEvent::StreamEnd => data.push(10u8),
            RelayEvent::TransportFailure(_) => data,
        }
    }
}

/// A session's outcome: success exactly when a terminal line is reached,
/// a transport failure surfaced as such, and a stream that stops — or an
/// event sequence that runs out — before the marker premature.
pub open spec fn session_outcome(data: Seq<u8>, events: Seq<RelayEvent>) -> Result<
    (),
    RelayError,
>
    decreases events.len(),
{
    if events.len() == 0 {
        Err(RelayError::PrematureTermination)
    } else {
        match events[0] {
            RelayEvent::Chunk(c) => {
                let d2 = data + c@;
                if feed_done(d2) {
                    Ok(())
                } else {
                    session_outcome(d2, events.drop_first())
                }
            },
            RelayEvent::StreamEnd => if stream_done(data) {
                Ok(())
            } else {
                Err(RelayError::PrematureTermination)
            },
            RelayEvent::TransportFailure(msg) => Err(RelayError::TransportError(msg)),
        }
    }
}

/// Run one whole relay invocation over the transport events as they came:
/// first the credential check — a missing credential fails the run before
/// anything is read, with nothing delivered — then event after event until
/// the run finishes or fails.  Returns everything delivered to the sink, in
/// order, and the run's outcome.
pub fn run_session(credential: Option<String>, events: Vec<RelayEvent>) -> (r: (
    Vec<String>,
    Result<(), RelayError>,
))
    ensures
        credential is None ==> r.0@.len() == 0 && r.1 == Err::<(), RelayError>(
            RelayError::ConfigurationError,
        ),
        credential is Some ==> {
            &&& string_views(r.0@) == feed_emits(session_consumed(Seq::empty(), events@))
            &&& r.1 == session_outcome(Seq::empty(), events@)
        },
{
    let mut sink: Vec<String> = Vec::new();
    match resolve_credential(credential) {
        Err(e) => {
            return (sink, Err(e));
        },
        Ok(_key) => {},
    }

    let mut relay = ChatRelay::new();
    let mut evs = events;
    
    proof {
        assert(string_views(Seq::<String>::empty()) =~= Seq::<Seq<char>>::empty());
    }
    loop
        invariant
            credential is Some,
            relay.wf(),
            string_views(sink@) == relay.decoder.emitted@,
            session_consumed(Seq::empty(), events@) == session_consumed(
                relay.decoder.consumed@,
                evs@,
            ),
            session_outcome(Seq::empty(), events@) == session_outcome(
                relay.decoder.consumed@,
                evs@,
            ),
        decreases evs@.len(),
    {
        if evs.len() == 0 {
            return (sink, Err(RelayError::PrematureTermination));
        }
        let ghost evs_prior = evs@;
        let ghost data_prior = relay.decoder.consumed@;
        let ev = evs.remove(0);
        proof {
            assert(evs@ =~= evs_prior.drop_first());
        }
        let step = relay.on_event(ev);
        match step {
            RelayStep::Continue(mut out) => {
                proof {
                    assert(string_views(sink@) + string_views(out@) =~= string_views(
                        sink@ + out@,
                    ));
                }
                sink.append(&mut out);
            },
            RelayStep::Finished(mut out) => {
                proof {
                    assert(string_views(sink@) + string_views(out@) =~= string_views(
                        sink@ + out@,
                    ));
                }
                sink.append(&mut out);
                return (sink, Ok(()));
            },
            RelayStep::Failed(mut out, e) => {
                proof {
                    assert(string_views(sink@) + string_views(out@) =~= string_views(
                        sink@ + out@,
                    ));
                }
                sink.append(&mut out);
                return (sink, Err(e));
            },
        }
    }
}

/// The events of a transport that delivers these byte chunks, in order.
pub open spec fn chunk_events(chunks: Seq<Vec<u8>>) -> Seq<RelayEvent> {
    chunks.map_values(|c: Vec<u8>| RelayEvent::Chunk(c))
}

/// Law: a session whose transport delivers its byte chunks and then closes
/// the stream delivers exactly the emissions of the concatenated bytes —
/// however the transport cut them apart — and succeeds exactly when they
/// reach the terminal marker.
pub proof fn lemma_session_decodes_the_stream(data: Seq<u8>, chunks: Seq<Vec<u8>>)
    ensures
        feed_emits(session_consumed(data, chunk_events(chunks).push(RelayEvent::StreamEnd)))
            == stream_emits(data + chunk_bytes(chunks)),
        (session_outcome(data, chunk_events(chunks).push(RelayEvent::StreamEnd)) is Ok)
            == stream_done(data + chunk_bytes(chunks)),
    decreases chunks.len(),
{
    let events = chunk_events(chunks).push(RelayEvent::StreamEnd);
    if chunks.len() == 0 {
        assert(events =~= seq![RelayEvent::StreamEnd]);
        assert(data + chunk_bytes(chunks) =~= data);
    } else {
        let c = chunks.first();
        let d2 = data + c@;
        lemma_chunk_bytes_first(chunks);
        assert(events[0] == RelayEvent::Chunk(c));
        assert(events.drop_first() =~= chunk_events(chunks.drop_first()).push(
            RelayEvent::StreamEnd,
        ));
        assert(data + chunk_bytes(chunks) =~= d2 + chunk_bytes(chunks.drop_first()));
        if feed_done(d2) {
            lemma_feed_done_stable(d2, chunk_bytes(chunks.drop_first()).push(10u8));
            assert(d2 + (chunk_bytes(chunks.drop_first()).push(10u8)) =~= (data + chunk_bytes(
                chunks,
            )).push(10u8));
        } else {
            lemma_session_decodes_the_stream(d2, chunks.drop_first());
        }
    }
}

/// Law: a transport failure before any event has delivered bytes yields no
/// emissions and surfaces as a transport error.
pub proof fn lemma_transport_failure_first(events: Seq<RelayEvent>, msg: String)
    requires
        events.len() >= 1,
        events[0] == RelayEvent::TransportFailure(msg),
    ensures
        feed_emits(session_consumed(Seq::empty(), events)) == Seq::<Seq<char>>::empty(),
        session_outcome(Seq::empty(), events) == Err::<(), RelayError>(
            RelayError::TransportError(msg),
        ),
{
}

/// Law: when the stream closes without having reached the terminal marker,
/// everything already decoded stands as partial output and the run fails as
/// a premature termination.
pub proof fn lemma_premature_close(data: Seq<u8>, events: Seq<RelayEvent>)
    requires
        events.len() >= 1,
        events[0] is StreamEnd,
        !stream_done(data),
    ensures
        feed_emits(session_consumed(data, events)) == stream_emits(data),
        session_outcome(data, events) == Err::<(), RelayError>(RelayError::PrematureTermination),
{
}

} // verus!
