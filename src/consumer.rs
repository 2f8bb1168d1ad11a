use vstd::prelude::*;

verus! {

broadcast use vstd::seq_lib::group_to_multiset_ensures;

/// Where a consumer stands in its life.
#[derive(Debug, Clone, Copy, PartialEq, Eq, Structural)]
pub enum Phase {
    Starting,
    Running,
    /// Cancellation was asked for, or the stream ended, while a handler was
    /// still at work on a delivery.
    Draining,
    Stopped,
}

/// What a handler decided about one message.
#[derive(Debug, Clone, Copy, PartialEq, Eq, Structural)]
pub enum HandlerOutcome {
    Ack,
    Reject { requeue: bool },
}

/// How a handler call ended: with a decision, or by failing.
#[derive(Debug, Clone, Copy, PartialEq, Eq, Structural)]
pub enum HandlerResult {
    Completed(HandlerOutcome),
    Failed,
}

/// The one acknowledgment that a delivery receives.
#[derive(Debug, Clone, Copy, PartialEq, Eq, Structural)]
pub enum Settlement {
    Ack { tag: u64 },
    Reject { tag: u64, requeue: bool },
}

/// What to do with a delivery that just arrived.
#[derive(Debug, Clone, Copy, PartialEq, Eq, Structural)]
pub enum Admission {
    /// Hand it to the handler, then report the result with `finish`.
    Handle,
    /// The consumer takes no work now: settle the delivery at once.
    Settle(Settlement),
}

/// Why a consumer stopped.
#[derive(Debug, Clone, Copy, PartialEq, Eq, Structural)]
pub enum StopReason {
    Cancelled,
    StartFailed,
    ChannelClosed,
}

impl StopReason {
    /// A stop that cancellation brought about is clean; the others are failures.
    pub open spec fn spec_is_clean(self) -> bool {
        self == StopReason::Cancelled
    }

    #[verifier::when_used_as_spec(spec_is_clean)]
    pub fn is_clean(self) -> (r: bool)
        ensures
            r == self.spec_is_clean(),
    {
        match self {
            StopReason::Cancelled => true,
            _ => false,
        }
    }
}

pub open spec fn tag_of(s: Settlement) -> u64 {
    match s {
        Settlement::Ack { tag } => tag,
        Settlement::Reject { tag, .. } => tag,
    }
}

pub open spec fn tags_of(s: Seq<Settlement>) -> Seq<u64> {
    s.map_values(|x: Settlement| tag_of(x))
}

/// The settlement that a handler's result calls for: a failed handler
/// rejects the message without requeueing it.
pub open spec fn settlement_for(tag: u64, r: HandlerResult) -> Settlement {
    match r {
        HandlerResult::Completed(HandlerOutcome::Ack) => Settlement::Ack { tag },
        HandlerResult::Completed(HandlerOutcome::Reject { requeue }) => Settlement::Reject {
            tag,
            requeue,
        },
        HandlerResult::Failed => Settlement::Reject { tag, requeue: false },
    }
}

/// The state of one queue's consumer, with the deliveries it received and
/// the settlements it gave, in order.
pub struct ConsumerModel {
    pub phase: Phase,
    pub in_flight: Option<u64>,
    pub cancel_requested: bool,
    pub channel_lost: bool,
    pub start_failed: bool,
    pub failures: u64,
    pub delivered: Seq<u64>,
    pub settled: Seq<Settlement>,
}

pub open spec fn in_flight_tags(f: Option<u64>) -> Seq<u64> {
    match f {
        Some(t) => seq![t],
        None => Seq::empty(),
    }
}

impl ConsumerModel {
    /// Every delivery is either settled or the one in the handler's hands,
    /// and only a running or draining consumer has one there.
    pub open spec fn wf(self) -> bool {
        &&& self.delivered.to_multiset() == (tags_of(self.settled) + in_flight_tags(
            self.in_flight,
        )).to_multiset()
        &&& (self.in_flight is Some <==> self.phase == Phase::Draining || (self.phase
            == Phase::Running && self.in_flight is Some))
        &&& (self.phase == Phase::Starting ==> !self.cancel_requested)
    }

    pub open spec fn started(self) -> ConsumerModel {
        if self.phase == Phase::Starting {
            ConsumerModel { phase: Phase::Running, ..self }
        } else {
            self
        }
    }

    pub open spec fn start_failed(self) -> ConsumerModel {
        if self.phase == Phase::Starting {
            ConsumerModel { phase: Phase::Stopped, start_failed: true, ..self }
        } else {
            self
        }
    }

    /// Cancellation stops new work; a delivery in the handler's hands is
    /// finished first.
    pub open spec fn cancelled(self) -> ConsumerModel {
        let phase = match self.phase {
            Phase::Starting => Phase::Stopped,
            Phase::Running => if self.in_flight is Some {
                Phase::Draining
            } else {
                Phase::Stopped
            },
            p => p,
        };
        ConsumerModel { phase, cancel_requested: true, ..self }
    }

    /// The stream of deliveries ended: after a cancellation that is the
    /// normal end, otherwise the channel was lost.
    pub open spec fn stream_ended(self) -> ConsumerModel {
        if self.phase == Phase::Stopped {
            self
        } else {
            ConsumerModel {
                phase: if self.in_flight is Some {
                    Phase::Draining
                } else {
                    Phase::Stopped
                },
                channel_lost: !self.cancel_requested,
                ..self
            }
        }
    }

    /// A running consumer with no delivery at work takes the new one; in any
    /// other state the delivery is rejected and requeued at once.
    pub open spec fn deliver(self, tag: u64) -> (ConsumerModel, Admission) {
        let delivered = self.delivered.push(tag);
        if self.phase == Phase::Running && self.in_flight is None {
            (ConsumerModel { in_flight: Some(tag), delivered, ..self }, Admission::Handle)
        } else {
            let s = Settlement::Reject { tag, requeue: true };
            (
                ConsumerModel { delivered, settled: self.settled.push(s), ..self },
                Admission::Settle(s),
            )
        }
    }

    /// The handler finished the delivery at work: it is settled as the
    /// result says. With no delivery at work nothing is settled.
    pub open spec fn finish(self, r: HandlerResult) -> (ConsumerModel, Option<Settlement>) {
        match self.in_flight {
            None => (self, None),
            Some(tag) => {
                let s = settlement_for(tag, r);
                let failures = if r == HandlerResult::Failed {
                    if self.failures < u64::MAX {
                        (self.failures + 1) as u64
                    } else {
                        self.failures
                    }
                } else {
                    self.failures
                };
                let phase = if self.phase == Phase::Draining {
                    Phase::Stopped
                } else {
                    self.phase
                };
                (
                    ConsumerModel {
                        phase,
                        in_flight: None,
                        failures,
                        settled: self.settled.push(s),
                        ..self
                    },
                    Some(s),
                )
            },
        }
    }

    pub open spec fn stop_reason(self) -> Option<StopReason> {
        if self.phase != Phase::Stopped {
            None
        } else if self.start_failed {
            Some(StopReason::StartFailed)
        } else if self.channel_lost {
            Some(StopReason::ChannelClosed)
        } else {
            Some(StopReason::Cancelled)
        }
    }
}

proof fn lemma_tags_push(s: Seq<Settlement>, x: Settlement)
    ensures
        tags_of(s.push(x)) == tags_of(s).push(tag_of(x)),
{
    assert(tags_of(s.push(x)) =~= tags_of(s).push(tag_of(x)));
}

/// Every step of a consumer keeps its bookkeeping sound.
pub proof fn lemma_steps_keep_wf(m: ConsumerModel, tag: u64, r: HandlerResult)
    requires
        m.wf(),
    ensures
        m.started().wf(),
        m.start_failed().wf(),
        m.cancelled().wf(),
        m.stream_ended().wf(),
        m.deliver(tag).0.wf(),
        m.finish(r).0.wf(),
{
    let ts = tags_of(m.settled);
    assert(ts + in_flight_tags(None) =~= ts);
    let d = m.deliver(tag).0;
    if m.phase == Phase::Running && m.in_flight is None {
        assert(ts + in_flight_tags(Some(tag)) =~= ts.push(tag));
    } else {
        lemma_tags_push(m.settled, Settlement::Reject { tag, requeue: true });
        let f = in_flight_tags(m.in_flight);
        vstd::seq_lib::lemma_multiset_commutative(ts.push(tag), f);
        vstd::seq_lib::lemma_multiset_commutative(ts, f);
        assert(d.delivered.to_multiset() =~= (ts.push(tag) + f).to_multiset());
    }
    if let Some(t) = m.in_flight {
        let s = settlement_for(t, r);
        lemma_tags_push(m.settled, s);
        assert(ts + in_flight_tags(Some(t)) =~= ts.push(t));
    }
}

proof fn lemma_no_dup_count(s: Seq<u64>, t: u64)
    requires
        s.no_duplicates(),
    ensures
        s.to_multiset().count(t) == if s.contains(t) {
            1nat
        } else {
            0nat
        },
    decreases s.len(),
{
    if s.len() > 0 {
        let init = s.drop_last();
        assert(init.no_duplicates());
        lemma_no_dup_count(init, t);
        assert(init.push(s.last()) =~= s);
        if init.contains(t) {
            let i = choose|i: int| 0 <= i < init.len() && init[i] == t;
            assert(s[i] == t);
            assert(s.last() != t);
        }
        if s.contains(t) && s.last() != t {
            let i = choose|i: int| 0 <= i < s.len() && s[i] == t;
            assert(init[i] == t);
        }
    }
}

/// Each delivery is settled exactly once: a consumer whose deliveries carry
/// distinct tags has settled every one of them once, but the one in the
/// handler's hands, and settled nothing else. Once the handler finishes,
/// that one is settled too and nothing is left at work.
pub proof fn lemma_each_delivery_settled_once(m: ConsumerModel, r: HandlerResult)
    requires
        m.wf(),
        m.delivered.no_duplicates(),
    ensures
        forall|t: u64| #[trigger]
            tags_of(m.settled).to_multiset().count(t) + in_flight_tags(
                m.in_flight,
            ).to_multiset().count(t) == if m.delivered.contains(t) {
                1nat
            } else {
                0nat
            },
        m.finish(r).0.in_flight is None,
        forall|t: u64| #[trigger]
            tags_of(m.finish(r).0.settled).to_multiset().count(t) == if m.delivered.contains(t) {
                1nat
            } else {
                0nat
            },
{
    let ts = tags_of(m.settled);
    let f = in_flight_tags(m.in_flight);
    vstd::seq_lib::lemma_multiset_commutative(ts, f);
    assert forall|t: u64| #[trigger]
        ts.to_multiset().count(t) + f.to_multiset().count(t) == if m.delivered.contains(t) {
            1nat
        } else {
            0nat
        } by {
        lemma_no_dup_count(m.delivered, t);
    }
    lemma_steps_keep_wf(m, 0, r);
    let m1 = m.finish(r).0;
    assert forall|t: u64| #[trigger]
        tags_of(m1.settled).to_multiset().count(t) == if m.delivered.contains(t) {
            1nat
        } else {
            0nat
        } by {
        lemma_no_dup_count(m.delivered, t);
        assert(tags_of(m1.settled) + in_flight_tags(None) =~= tags_of(m1.settled));
    }
}

/// A failed handler call settles its message as rejected, without requeue,
/// and the consumer goes on: the next delivery goes to the handler.
pub proof fn lemma_failure_keeps_consuming(m: ConsumerModel, next: u64)
    requires
        m.phase == Phase::Running,
        m.in_flight is Some,
    ensures
        m.finish(HandlerResult::Failed).1 == Some(
            Settlement::Reject { tag: m.in_flight->0, requeue: false },
        ),
        m.finish(HandlerResult::Failed).0.phase == Phase::Running,
        m.finish(HandlerResult::Failed).0.deliver(next).1 == Admission::Handle,
{
}

/// Cancellation leaves no consumer running: it stops at once, or, with a
/// delivery at work, as soon as the handler finishes that one. The stop is
/// clean unless the start or the channel failed before, and an end of the
/// stream afterwards changes nothing.
pub proof fn lemma_cancel_stops(m: ConsumerModel, r: HandlerResult)
    requires
        m.wf(),
    ensures
        ({
            let c = m.cancelled();
            let d = if c.phase == Phase::Stopped {
                c
            } else {
                c.finish(r).0
            };
            &&& c.phase == Phase::Stopped || c.phase == Phase::Draining
            &&& d.phase == Phase::Stopped
            &&& d.stream_ended() == d
            &&& (!m.start_failed && !m.channel_lost) ==> d.stop_reason() == Some(
                StopReason::Cancelled,
            )
        }),
{
}

/// The consumer of one queue: it decides what happens to each delivery and
/// when it has stopped, while its caller moves the messages.
pub struct Consumer {
    queue: String,
    phase: Phase,
    in_flight: Option<u64>,
    cancel_requested: bool,
    channel_lost: bool,
    start_failed: bool,
    failures: u64,
    delivered: Ghost<Seq<u64>>,
    settled: Ghost<Seq<Settlement>>,
}

impl View for Consumer {
    type V = ConsumerModel;

    closed spec fn view(&self) -> ConsumerModel {
        ConsumerModel {
            phase: self.phase,
            in_flight: self.in_flight,
            cancel_requested: self.cancel_requested,
            channel_lost: self.channel_lost,
            start_failed: self.start_failed,
            failures: self.failures,
            delivered: self.delivered@,
            settled: self.settled@,
        }
    }
}

/// The tag a consumer of `queue` subscribes under: `consumer_` and the name.
pub open spec fn consumer_tag_of(queue: Seq<char>) -> Seq<char> {
    seq!['c', 'o', 'n', 's', 'u', 'm', 'e', 'r', '_'] + queue
}

pub fn consumer_tag(queue: &str) -> (r: String)
    ensures
        r@ == consumer_tag_of(queue@),
{
    let mut r = String::from_str("consumer_");
    r.append(queue);
    proof {
        reveal_strlit("consumer_");
    }
    r
}

impl Consumer {
    pub closed spec fn queue_view(&self) -> Seq<char> {
        self.queue@
    }

    /// A consumer of `queue` that has not subscribed yet.
    pub fn new(queue: String) -> (r: Consumer)
        ensures
            r.queue_view() == queue@,
            r@.phase == Phase::Starting,
            r@.in_flight is None,
            !r@.cancel_requested && !r@.channel_lost && !r@.start_failed,
            r@.failures == 0,
            r@.delivered == Seq::<u64>::empty(),
            r@.settled == Seq::<Settlement>::empty(),
            r@.wf(),
    {
        let r = Consumer {
            queue,
            phase: Phase::Starting,
            in_flight: None,
            cancel_requested: false,
            channel_lost: false,
            start_failed: false,
            failures: 0,
            delivered: Ghost(Seq::empty()),
            settled: Ghost(Seq::empty()),
        };
        assert(tags_of(r.settled@) + in_flight_tags(None) =~= Seq::<u64>::empty());
        r
    }

    pub fn queue(&self) -> (r: &str)
        ensures
            r@ == self.queue_view(),
    {
        self.queue.as_str()
    }

    pub fn phase(&self) -> (r: Phase)
        ensures
            r == self@.phase,
    {
        self.phase
    }

    /// How many handler calls failed (saturating at the largest `u64`).
    pub fn failures(&self) -> (r: u64)
        ensures
            r == self@.failures,
    {
        self.failures
    }

    /// The subscription was accepted.
    pub fn started(&mut self)
        ensures
            final(self)@ == old(self)@.started(),
            final(self).queue_view() == old(self).queue_view(),
            old(self)@.wf() ==> final(self)@.wf(),
    {
        proof {
            if self@.wf() {
                lemma_steps_keep_wf(self@, 0, HandlerResult::Failed);
            }
        }
        if self.phase == Phase::Starting {
            self.phase = Phase::Running;
        }
    }

    /// The subscription failed.
    pub fn start_failed(&mut self)
        ensures
            final(self)@ == old(self)@.start_failed(),
            final(self).queue_view() == old(self).queue_view(),
            old(self)@.wf() ==> final(self)@.wf(),
    {
        proof {
            if self@.wf() {
                lemma_steps_keep_wf(self@, 0, HandlerResult::Failed);
            }
        }
        if self.phase == Phase::Starting {
            self.phase = Phase::Stopped;
            self.start_failed = true;
        }
    }

    /// Asks the consumer to stop.
    pub fn cancel(&mut self)
        ensures
            final(self)@ == old(self)@.cancelled(),
            final(self).queue_view() == old(self).queue_view(),
            old(self)@.wf() ==> final(self)@.wf(),
    {
        proof {
            if self@.wf() {
                lemma_steps_keep_wf(self@, 0, HandlerResult::Failed);
            }
        }
        self.phase = match self.phase {
            Phase::Starting => Phase::Stopped,
            Phase::Running => if self.in_flight.is_some() {
                Phase::Draining
            } else {
                Phase::Stopped
            },
            p => p,
        };
        self.cancel_requested = true;
    }

    /// The stream of deliveries ended.
    pub fn stream_ended(&mut self)
        ensures
            final(self)@ == old(self)@.stream_ended(),
            final(self).queue_view() == old(self).queue_view(),
            old(self)@.wf() ==> final(self)@.wf(),
    {
        proof {
            if self@.wf() {
                lemma_steps_keep_wf(self@, 0, HandlerResult::Failed);
            }
        }
        if self.phase != Phase::Stopped {
            self.phase = if self.in_flight.is_some() {
                Phase::Draining
            } else {
                Phase::Stopped
            };
            self.channel_lost = !self.cancel_requested;
        }
    }

    /// A delivery with tag `tag` arrived.
    pub fn deliver(&mut self, tag: u64) -> (r: Admission)
        ensures
            (final(self)@, r) == old(self)@.deliver(tag),
            final(self).queue_view() == old(self).queue_view(),
            old(self)@.wf() ==> final(self)@.wf(),
    {
        proof {
            if self@.wf() {
                lemma_steps_keep_wf(self@, tag, HandlerResult::Failed);
            }
        }
        self.delivered = Ghost(self.delivered@.push(tag));
        if self.phase == Phase::Running && self.in_flight.is_none() {
            self.in_flight = Some(tag);
            Admission::Handle
        } else {
            let s = Settlement::Reject { tag, requeue: true };
            self.settled = Ghost(self.settled@.push(s));
            Admission::Settle(s)
        }
    }

    /// The handler finished the delivery at work, with result `result`.
    pub fn finish(&mut self, result: HandlerResult) -> (r: Option<Settlement>)
        ensures
            (final(self)@, r) == old(self)@.finish(result),
            final(self).queue_view() == old(self).queue_view(),
            old(self)@.wf() ==> final(self)@.wf(),
    {
        proof {
            if self@.wf() {
                lemma_steps_keep_wf(self@, 0, result);
            }
        }
        match self.in_flight {
            None => None,
            Some(tag) => {
                let s = match result {
                    HandlerResult::Completed(HandlerOutcome::Ack) => Settlement::Ack { tag },
                    HandlerResult::Completed(HandlerOutcome::Reject { requeue }) => {
                        Settlement::Reject { tag, requeue }
                    },
                    HandlerResult::Failed => Settlement::Reject { tag, requeue: false },
                };
                if let HandlerResult::Failed = result {
                    self.failures = self.failures.saturating_add(1);
                }
                if self.phase == Phase::Draining {
                    self.phase = Phase::Stopped;
                }
                self.in_flight = None;
                self.settled = Ghost(self.settled@.push(s));
                Some(s)
            },
        }
    }

    /// Why the consumer stopped; `None` while it has not.
    pub fn stop_reason(&self) -> (r: Option<StopReason>)
        ensures
            r == self@.stop_reason(),
    {
        if self.phase != Phase::Stopped {
            None
        } else if self.start_failed {
            Some(StopReason::StartFailed)
        } else if self.channel_lost {
            Some(StopReason::ChannelClosed)
        } else {
            Some(StopReason::Cancelled)
        }
    }
}

} // verus!
