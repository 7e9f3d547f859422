//! The ingestion engine: the decision core of the chat event loop. Each
//! received event is normalized, the record (if any) is appended to the
//! batch buffer, and the flush scheduler runs; the caller performs the
//! returned protocol reply and submits the returned batch, if one is due,
//! to the durable store.

use vstd::prelude::*;

use crate::buffer::{LogBuffer, THRESHOLD, TIME_THRESHOLD};
use crate::config::Config;
use crate::log::Log;
use crate::normalize::{normalize, produces_record, record_matches, Event};

verus! {

/// What the caller owes the chat network after handling an event: nothing,
/// an answer to a keep-alive probe, or a reconnect followed by rejoining
/// every configured channel.
#[derive(Clone, Copy, Debug, PartialEq, Eq, Structural)]
pub enum Reply {
    Nothing,
    Pong,
    RejoinAll,
}

/// The reply an event demands: probes are answered, reconnect requests
/// rejoin, everything else needs no reply.
pub open spec fn spec_reply(event: Event) -> Reply {
    match event {
        Event::HeartbeatProbe => Reply::Pong,
        Event::ReconnectRequested => Reply::RejoinAll,
        _ => Reply::Nothing,
    }
}

/// The sequential consumer of the event stream: the startup configuration
/// and the batch buffer it owns exclusively between flushes.
pub struct Ingestor {
    pub config: Config,
    pub buffer: LogBuffer,
}

impl Ingestor {
    /// The records standing after the event is normalized and appended but
    /// before the flush check: every previously buffered record in order,
    /// then the event's own record if the event produces one.
    pub open spec fn mid_seq_ok(self, event: Event, id: u128, now: i64, mid: Seq<Log>) -> bool {
        &&& mid.len() == self.buffer.logs@.len() + (if produces_record(
            event,
            self.config.ignored_users@,
        ) {
            1int
        } else {
            0int
        })
        &&& mid.take(self.buffer.logs@.len() as int) == self.buffer.logs@
        &&& (produces_record(event, self.config.ignored_users@) ==> record_matches(
            mid.last(),
            event,
            id,
            now,
        ))
    }

    /// Whether this step ends in a flush: the dual trigger, evaluated after
    /// the event's record (if any) is appended, and never for an empty
    /// buffer.
    pub open spec fn flush_due_after(self, event: Event, now: i64) -> bool {
        let mid_len = self.buffer.logs@.len() + (if produces_record(
            event,
            self.config.ignored_users@,
        ) {
            1int
        } else {
            0int
        });
        (mid_len >= THRESHOLD || now - self.buffer.last_flush >= TIME_THRESHOLD) && mid_len > 0
    }

    /// An engine over an empty buffer whose flush clock starts now.
    pub fn new(config: Config, now: i64) -> (r: Self)
        requires
            0 <= now,
        ensures
            r.config == config,
            r.buffer.logs@ == Seq::<Log>::empty(),
            r.buffer.last_flush == now,
            r.buffer.wf(),
    {
        Ingestor { config, buffer: LogBuffer::new(now) }
    }

    /// Everything one `handle_event` step guarantees: the reply owed, the
    /// flush decision, and the fate of every record — the step's records
    /// end up either all in the returned batch or all in the buffer, never
    /// both, never neither.
    pub open spec fn step_post(
        pre: Self,
        post: Self,
        event: Event,
        id: u128,
        now: i64,
        r: (Reply, Option<Vec<Log>>),
    ) -> bool {
        &&& r.0 == spec_reply(event)
        &&& post.config == pre.config
        &&& post.buffer.wf()
        &&& post.buffer.last_flush <= now
        &&& (r.1 is Some <==> pre.flush_due_after(event, now))
        &&& (r.1 matches Some(batch) ==> {
            &&& pre.mid_seq_ok(event, id, now, batch@)
            &&& post.buffer.logs@ == Seq::<Log>::empty()
            &&& post.buffer.last_flush == now
        })
        &&& (r.1 is None ==> {
            &&& pre.mid_seq_ok(event, id, now, post.buffer.logs@)
            &&& post.buffer.last_flush == pre.buffer.last_flush
        })
    }

    /// Handles one received event: answers what reply the protocol is owed,
    /// and hands out the drained batch exactly when the dual trigger holds
    /// of the records standing after this event. No record is ever dropped
    /// or duplicated: the step's records end up either all in the batch or
    /// all in the buffer.
    pub fn handle_event(&mut self, event: &Event, id: u128, now: i64) -> (r: (
        Reply,
        Option<Vec<Log>>,
    ))
        requires
            old(self).buffer.wf(),
            old(self).buffer.last_flush <= now,
        ensures
            Self::step_post(*old(self), *final(self), *event, id, now, r),
    {
        let reply = match event {
            Event::HeartbeatProbe => Reply::Pong,
            Event::ReconnectRequested => Reply::RejoinAll,
            _ => Reply::Nothing,
        };
        match normalize(event, &self.config.ignored_users, id, now) {
            Some(log) => {
                self.buffer.append(log);
                proof {
                    assert(self.buffer.logs@.take(old(self).buffer.logs@.len() as int)
                        =~= old(self).buffer.logs@);
                }
            },
            None => {
                proof {
                    assert(self.buffer.logs@.take(old(self).buffer.logs@.len() as int)
                        =~= old(self).buffer.logs@);
                }
            },
        }
        let batch = self.buffer.flush_if_due(now);
        (reply, batch)
    }
}

/// The adapter's connection lifecycle.
#[derive(Clone, Copy, Debug, PartialEq, Eq, Structural)]
pub enum ConnState {
    Disconnected,
    Connecting,
    Joined,
    Active,
    Reconnecting,
    Closed,
}

/// What the transport reports to the lifecycle.
#[derive(Clone, Copy, Debug, PartialEq, Eq, Structural)]
pub enum ConnEvent {
    ConnectRequested,
    JoinCompleted,
    ReceiveStarted,
    ReconnectRequested,
    FatalError,
}

/// The adapter's transition relation: connect leads through joining into
/// the steady receive loop; a requested reconnect must rejoin every channel
/// before the loop resumes; an unrecoverable transport error is terminal.
pub open spec fn conn_next(s: ConnState, e: ConnEvent) -> ConnState {
    match (s, e) {
        (ConnState::Closed, _) => ConnState::Closed,
        (_, ConnEvent::FatalError) => ConnState::Closed,
        (ConnState::Disconnected, ConnEvent::ConnectRequested) => ConnState::Connecting,
        (ConnState::Connecting, ConnEvent::JoinCompleted) => ConnState::Joined,
        (ConnState::Joined, ConnEvent::ReceiveStarted) => ConnState::Active,
        (ConnState::Active, ConnEvent::ReconnectRequested) => ConnState::Reconnecting,
        (ConnState::Reconnecting, ConnEvent::JoinCompleted) => ConnState::Joined,
        (_, _) => s,
    }
}

/// The batch one step drained, or nothing.
pub open spec fn batch_of(r: (Reply, Option<Vec<Log>>)) -> Seq<Log> {
    match r.1 {
        Some(b) => b@,
        None => Seq::<Log>::empty(),
    }
}

/// Every record drained over a run, in drain order.
pub open spec fn drained(results: Seq<(Reply, Option<Vec<Log>>)>) -> Seq<Log>
    decreases results.len(),
{
    if results.len() == 0 {
        Seq::<Log>::empty()
    } else {
        drained(results.drop_last()) + batch_of(results.last())
    }
}

/// The positions, in order, of the events that produce a record.
pub open spec fn producing(events: Seq<Event>, ignored: Seq<String>) -> Seq<int>
    decreases events.len(),
{
    if events.len() == 0 {
        Seq::<int>::empty()
    } else {
        let rest = producing(events.drop_last(), ignored);
        if produces_record(events.last(), ignored) {
            rest.push(events.len() - 1)
        } else {
            rest
        }
    }
}

/// Producing positions index into the events.
pub proof fn lemma_producing_bounds(events: Seq<Event>, ignored: Seq<String>)
    ensures
        forall|j: int|
            0 <= j < producing(events, ignored).len() ==> 0 <= #[trigger] producing(
                events,
                ignored,
            )[j] < events.len(),
    decreases events.len(),
{
    if events.len() > 0 {
        lemma_producing_bounds(events.drop_last(), ignored);
        let rest = producing(events.drop_last(), ignored);
        assert forall|j: int|
            0 <= j < producing(events, ignored).len() implies 0 <= #[trigger] producing(
            events,
            ignored,
        )[j] < events.len() by {
            if j < rest.len() {
                assert(producing(events, ignored)[j] == rest[j]);
            }
        }
    }
}

/// LAW: over any run of the engine from an empty buffer, the records
/// drained so far followed by the records still buffered are exactly the
/// filtered, normalized projection of the raw events: one record per
/// qualifying event, in arrival order, each matching its event — so no
/// record is dropped, duplicated, or observed in two drains. `states` are
/// the engine states around the steps; `ids` and `times` the fresh ids and
/// clock readings the steps received; `results` what each step returned.
pub proof fn lemma_ingest_projection(
    states: Seq<Ingestor>,
    events: Seq<Event>,
    ids: Seq<u128>,
    times: Seq<i64>,
    results: Seq<(Reply, Option<Vec<Log>>)>,
)
    requires
        states.len() == events.len() + 1,
        ids.len() == events.len(),
        times.len() == events.len(),
        results.len() == events.len(),
        states[0].buffer.logs@.len() == 0,
        forall|i: int|
            0 <= i < events.len() ==> #[trigger] Ingestor::step_post(
                states[i],
                states[i + 1],
                events[i],
                ids[i],
                times[i],
                results[i],
            ),
    ensures
        states.last().config == states[0].config,
        drained(results).len() + states.last().buffer.logs@.len() == producing(
            events,
            states[0].config.ignored_users@,
        ).len(),
        forall|j: int|
            0 <= j < producing(events, states[0].config.ignored_users@).len()
                ==> record_matches(
                #[trigger] (drained(results) + states.last().buffer.logs@)[j],
                events[producing(events, states[0].config.ignored_users@)[j]],
                ids[producing(events, states[0].config.ignored_users@)[j]],
                times[producing(events, states[0].config.ignored_users@)[j]],
            ),
    decreases events.len(),
{
    let ignored = states[0].config.ignored_users@;
    if events.len() == 0 {
        assert(drained(results).len() == 0);
        assert(producing(events, ignored) =~= Seq::<int>::empty());
    } else {
        let n = events.len() as int;
        let states2 = states.subrange(0, n);
        let events2 = events.subrange(0, n - 1);
        let ids2 = ids.subrange(0, n - 1);
        let times2 = times.subrange(0, n - 1);
        let results2 = results.subrange(0, n - 1);
        assert forall|i: int|
            0 <= i < events2.len() implies #[trigger] Ingestor::step_post(
            states2[i],
            states2[i + 1],
            events2[i],
            ids2[i],
            times2[i],
            results2[i],
        ) by {
            assert(Ingestor::step_post(
                states[i],
                states[i + 1],
                events[i],
                ids[i],
                times[i],
                results[i],
            ));
        }
        lemma_ingest_projection(states2, events2, ids2, times2, results2);
        lemma_producing_bounds(events2, ignored);
        lemma_producing_bounds(events, ignored);

        let pre = states[n - 1];
        let post = states[n];
        assert(Ingestor::step_post(pre, post, events[n - 1], ids[n - 1], times[n - 1], results[n
            - 1]));
        assert(states2.last() == pre);
        assert(pre.config == states[0].config);

        // The records standing after the last step, batched or buffered.
        let mid: Seq<Log> = if results[n - 1].1 is Some {
            batch_of(results[n - 1])
        } else {
            post.buffer.logs@
        };
        assert(pre.mid_seq_ok(events[n - 1], ids[n - 1], times[n - 1], mid));
        let produced = produces_record(events[n - 1], ignored);
        let prev = pre.buffer.logs@;
        assert(mid.take(prev.len() as int) == prev);

        // Drains split off the last step's batch.
        assert(results.drop_last() =~= results2);
        assert(drained(results) == drained(results2) + batch_of(results[n - 1]));

        let all2 = drained(results2) + prev;
        let all = drained(results) + post.buffer.logs@;
        assert(all =~= drained(results2) + mid) by {
            if results[n - 1].1 is Some {
                assert(post.buffer.logs@ =~= Seq::<Log>::empty());
            } else {
                assert(batch_of(results[n - 1]) =~= Seq::<Log>::empty());
            }
        }

        // The producing positions split off the last event.
        let prod2 = producing(events2, ignored);
        let prod = producing(events, ignored);
        assert(events.drop_last() =~= events2);
        assert(prod == if produced {
            prod2.push(n - 1)
        } else {
            prod2
        });

        assert(all.len() == prod.len());
        assert forall|j: int| 0 <= j < prod.len() implies record_matches(
            #[trigger] all[j],
            events[prod[j]],
            ids[prod[j]],
            times[prod[j]],
        ) by {
            let d = drained(results2).len() as int;
            if j < all2.len() {
                assert(all2[j] == (drained(results2) + states2.last().buffer.logs@)[j]);
                if j < d {
                    assert(all[j] == drained(results2)[j]);
                    assert(all2[j] == drained(results2)[j]);
                } else {
                    assert(all2[j] == prev[j - d]);
                    assert(all[j] == mid[j - d]);
                    assert(mid[j - d] == mid.take(prev.len() as int)[j - d]);
                }
                assert(all[j] == all2[j]);
                assert(prod[j] == prod2[j]);
                assert(0 <= prod2[j] < events2.len());
                assert(events[prod2[j]] == events2[prod2[j]]);
                assert(ids[prod2[j]] == ids2[prod2[j]]);
                assert(times[prod2[j]] == times2[prod2[j]]);
            } else {
                assert(produced);
                assert(j == all2.len());
                assert(prod[j] == n - 1);
                assert(all[j] == mid[j - d]);
                assert(j - d == mid.len() - 1);
                assert(all[j] == mid.last());
                assert(record_matches(mid.last(), events[n - 1], ids[n - 1], times[n - 1]));
            }
        }
    }
}

/// Advances the connection lifecycle by one reported event.
pub fn conn_step(s: ConnState, e: ConnEvent) -> (r: ConnState)
    ensures
        r == conn_next(s, e),
{
    match (s, e) {
        (ConnState::Closed, _) => ConnState::Closed,
        (_, ConnEvent::FatalError) => ConnState::Closed,
        (ConnState::Disconnected, ConnEvent::ConnectRequested) => ConnState::Connecting,
        (ConnState::Connecting, ConnEvent::JoinCompleted) => ConnState::Joined,
        (ConnState::Joined, ConnEvent::ReceiveStarted) => ConnState::Active,
        (ConnState::Active, ConnEvent::ReconnectRequested) => ConnState::Reconnecting,
        (ConnState::Reconnecting, ConnEvent::JoinCompleted) => ConnState::Joined,
        (_, _) => s,
    }
}

} // verus!
