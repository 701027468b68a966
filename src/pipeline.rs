//! Per-message orchestration: decode, then features, facts and verdict,
//! then acknowledgment. The decisions are a state machine from phase and
//! event to next phase and action; the caller performs each action (runs a
//! stage, acknowledges the message) and hands back what came of it.

use vstd::prelude::*;
use crate::codec::{decode, decode_spec, AnalysisInput};
use crate::stages::{
    explanation_of, fetch_dgraph_facts, run_datalog, run_inference, verdict_rule, DgraphFacts,
    NeuralFeatures, StageError, Verdict,
};

verus! {

/// Adds one to a counter that stops at its largest value.
pub open spec fn bump(x: u64) -> u64 {
    if x < u64::MAX {
        (x + 1) as u64
    } else {
        x
    }
}

fn bump_exec(x: u64) -> (r: u64)
    ensures
        r == bump(x),
{
    if x < u64::MAX {
        x + 1
    } else {
        x
    }
}

/// Counters shared by all messages: completed messages, failed messages,
/// latency observations and acknowledgments requested.
#[derive(Clone, Copy, Debug, PartialEq, Eq, Structural)]
pub struct Tally {
    pub processed: u64,
    pub errors: u64,
    pub latency_observations: u64,
    pub acks: u64,
}

/// The stage at which a message failed.
#[derive(Clone, Copy, Debug, PartialEq, Eq, Structural)]
pub enum Failure {
    Decode,
    Features,
    Verdict,
}

/// The terminal outcome of one message.
#[derive(Debug, PartialEq, Eq)]
pub enum Outcome {
    Completed { verdict: Verdict, explanation: String },
    Failed(Failure),
}

/// Where a message stands.
pub enum Phase {
    Received,
    Decoded { input: AnalysisInput },
    Featured { input: AnalysisInput, features: NeuralFeatures },
    FactsLoaded { input: AnalysisInput },
    Acked,
}

/// What the caller reports back.
pub enum Event {
    /// The message's raw payload arrived.
    Payload(Vec<u8>),
    /// Feature extraction finished.
    Features(Result<NeuralFeatures, StageError>),
    /// The fact lookup finished.
    Facts(DgraphFacts),
    /// The verdict engine finished.
    Verdict(Result<(Verdict, String), StageError>),
}

/// What the caller is to do next.
pub enum Action {
    ExtractFeatures { content_hash: String },
    FetchFacts { source_id: String },
    Evaluate { features: NeuralFeatures, facts: DgraphFacts },
    /// Record the outcome in the metrics and acknowledge the message.
    Ack { outcome: Outcome },
    /// The event does not belong to this phase; nothing to do.
    Ignore,
}

/// The shape of a phase, without its data.
#[derive(Clone, Copy, Debug, PartialEq, Eq, Structural)]
pub enum PhaseKind {
    Received,
    Decoded,
    Featured,
    FactsLoaded,
    Acked,
}

/// The shape of an event: which stage reported, and whether it succeeded.
#[derive(Clone, Copy, Debug, PartialEq, Eq, Structural)]
pub enum EventKind {
    Payload(bool),
    Features(bool),
    Facts,
    Verdict(bool),
}

/// The shape of an action; `Ack(true)` acknowledges a completed message.
#[derive(Clone, Copy, Debug, PartialEq, Eq, Structural)]
pub enum ActionKind {
    ExtractFeatures,
    FetchFacts,
    Evaluate,
    Ack(bool),
    Ignore,
}

impl Phase {
    pub open spec fn kind(self) -> PhaseKind {
        match self {
            Phase::Received => PhaseKind::Received,
            Phase::Decoded { .. } => PhaseKind::Decoded,
            Phase::Featured { .. } => PhaseKind::Featured,
            Phase::FactsLoaded { .. } => PhaseKind::FactsLoaded,
            Phase::Acked => PhaseKind::Acked,
        }
    }
}

impl Event {
    pub open spec fn kind(self) -> EventKind {
        match self {
            Event::Payload(b) => EventKind::Payload(decode_spec(b@) is Some),
            Event::Features(r) => EventKind::Features(r is Ok),
            Event::Facts(_) => EventKind::Facts,
            Event::Verdict(r) => EventKind::Verdict(r is Ok),
        }
    }
}

impl Action {
    pub open spec fn kind(self) -> ActionKind {
        match self {
            Action::ExtractFeatures { .. } => ActionKind::ExtractFeatures,
            Action::FetchFacts { .. } => ActionKind::FetchFacts,
            Action::Evaluate { .. } => ActionKind::Evaluate,
            Action::Ack { outcome } => ActionKind::Ack(outcome is Completed),
            Action::Ignore => ActionKind::Ignore,
        }
    }
}

/// The state machine on shapes. A failure at any stage goes straight to
/// acknowledgment; events that do not fit the phase are ignored.
pub open spec fn transition(p: PhaseKind, e: EventKind) -> (PhaseKind, ActionKind) {
    match (p, e) {
        (PhaseKind::Received, EventKind::Payload(true)) => (
            PhaseKind::Decoded,
            ActionKind::ExtractFeatures,
        ),
        (PhaseKind::Received, EventKind::Payload(false)) => (PhaseKind::Acked, ActionKind::Ack(false)),
        (PhaseKind::Decoded, EventKind::Features(true)) => (PhaseKind::Featured, ActionKind::FetchFacts),
        (PhaseKind::Decoded, EventKind::Features(false)) => (PhaseKind::Acked, ActionKind::Ack(false)),
        (PhaseKind::Featured, EventKind::Facts) => (PhaseKind::FactsLoaded, ActionKind::Evaluate),
        (PhaseKind::FactsLoaded, EventKind::Verdict(ok)) => (PhaseKind::Acked, ActionKind::Ack(ok)),
        _ => (p, ActionKind::Ignore),
    }
}

/// What each transition hands on: the decoded input, the stage results,
/// and the outcome in the acknowledgment.
pub open spec fn carries(phase: Phase, event: Event, next: Phase, action: Action) -> bool {
    match (phase, event) {
        (Phase::Received, Event::Payload(b)) => match decode_spec(b@) {
            Some(v) => next matches Phase::Decoded { input } && input@ == v
                && action == (Action::ExtractFeatures { content_hash: input.content_hash }),
            None => next is Acked && action == (Action::Ack {
                outcome: Outcome::Failed(Failure::Decode),
            }),
        },
        (Phase::Decoded { input }, Event::Features(Ok(f))) => next == (Phase::Featured {
            input,
            features: f,
        }) && action == (Action::FetchFacts { source_id: input.source_id }),
        (Phase::Decoded { .. }, Event::Features(Err(_))) => next is Acked && action == (Action::Ack {
            outcome: Outcome::Failed(Failure::Features),
        }),
        (Phase::Featured { input, features }, Event::Facts(d)) => next == (Phase::FactsLoaded {
            input,
        }) && action == (Action::Evaluate { features, facts: d }),
        (Phase::FactsLoaded { .. }, Event::Verdict(Ok((v, e)))) => next is Acked && action == (
        Action::Ack { outcome: Outcome::Completed { verdict: v, explanation: e } }),
        (Phase::FactsLoaded { .. }, Event::Verdict(Err(_))) => next is Acked && action == (
        Action::Ack { outcome: Outcome::Failed(Failure::Verdict) }),
        _ => next == phase && action is Ignore,
    }
}

impl Tally {
    /// The counters after `a`: a completed acknowledgment counts a processed
    /// message and a latency observation, a failed one counts an error.
    pub open spec fn after(self, a: ActionKind) -> Tally {
        match a {
            ActionKind::Ack(true) => Tally {
                processed: bump(self.processed),
                latency_observations: bump(self.latency_observations),
                acks: bump(self.acks),
                ..self
            },
            ActionKind::Ack(false) => Tally {
                errors: bump(self.errors),
                acks: bump(self.acks),
                ..self
            },
            _ => self,
        }
    }

    /// All counters at zero.
    pub fn new() -> (r: Tally)
        ensures
            r.processed == 0 && r.errors == 0 && r.latency_observations == 0 && r.acks == 0,
    {
        Tally { processed: 0, errors: 0, latency_observations: 0, acks: 0 }
    }

    /// Counts the acknowledgment of `outcome`.
    pub fn record(&mut self, outcome: &Outcome)
        ensures
            *final(self) == old(self).after(ActionKind::Ack(*outcome is Completed)),
    {
        match outcome {
            Outcome::Completed { .. } => {
                self.processed = bump_exec(self.processed);
                self.latency_observations = bump_exec(self.latency_observations);
            },
            Outcome::Failed(_) => {
                self.errors = bump_exec(self.errors);
            },
        }
        self.acks = bump_exec(self.acks);
    }
}

/// One decision of the orchestrator. Counts the outcome in `tally` when
/// the action is an acknowledgment.
pub fn step(phase: Phase, event: Event, tally: &mut Tally) -> (r: (Phase, Action))
    ensures
        carries(phase, event, r.0, r.1),
        (r.0.kind(), r.1.kind()) == transition(phase.kind(), event.kind()),
        *final(tally) == old(tally).after(r.1.kind()),
{
    let r = match (phase, event) {
        (Phase::Received, Event::Payload(b)) => match decode(b.as_slice()) {
            Ok(input) => {
                let content_hash = input.content_hash.clone();
                (Phase::Decoded { input }, Action::ExtractFeatures { content_hash })
            },
            Err(_) => (Phase::Acked, Action::Ack { outcome: Outcome::Failed(Failure::Decode) }),
        },
        (Phase::Decoded { input }, Event::Features(Ok(features))) => {
            let source_id = input.source_id.clone();
            (Phase::Featured { input, features }, Action::FetchFacts { source_id })
        },
        (Phase::Decoded { .. }, Event::Features(Err(_))) => (
            Phase::Acked,
            Action::Ack { outcome: Outcome::Failed(Failure::Features) },
        ),
        (Phase::Featured { input, features }, Event::Facts(facts)) => (
            Phase::FactsLoaded { input },
            Action::Evaluate { features, facts },
        ),
        (Phase::FactsLoaded { .. }, Event::Verdict(Ok((verdict, explanation)))) => (
            Phase::Acked,
            Action::Ack { outcome: Outcome::Completed { verdict, explanation } },
        ),
        (Phase::FactsLoaded { .. }, Event::Verdict(Err(_))) => (
            Phase::Acked,
            Action::Ack { outcome: Outcome::Failed(Failure::Verdict) },
        ),
        (p, _) => (p, Action::Ignore),
    };
    if let Action::Ack { outcome } = &r.1 {
        tally.record(outcome);
    }
    r
}

/// Runs one message through the orchestrator with the built-in stages:
/// a malformed payload fails at decoding; any other payload completes with
/// the verdict of the built-in scores and facts.
pub fn process_payload(payload: Vec<u8>, tally: &mut Tally) -> (r: Outcome)
    ensures
        match decode_spec(payload@) {
            None => r == Outcome::Failed(Failure::Decode),
            Some(_) => r matches Outcome::Completed { verdict, explanation } && verdict
                == verdict_rule(500_000, true) && explanation@ == explanation_of(verdict),
        },
        *final(tally) == old(tally).after(ActionKind::Ack(r is Completed)),
{
    let (phase, action) = step(Phase::Received, Event::Payload(payload), tally);
    let content_hash = match action {
        Action::ExtractFeatures { content_hash } => content_hash,
        Action::Ack { outcome } => return outcome,
        _ => {
            assert(false);
            return Outcome::Failed(Failure::Decode);
        },
    };
    let (phase, action) = step(phase, Event::Features(run_inference(&content_hash)), tally);
    let source_id = match action {
        Action::FetchFacts { source_id } => source_id,
        _ => {
            assert(false);
            return Outcome::Failed(Failure::Features);
        },
    };
    let (phase, action) = step(phase, Event::Facts(fetch_dgraph_facts(&source_id)), tally);
    let (features, facts) = match action {
        Action::Evaluate { features, facts } => (features, facts),
        _ => {
            assert(false);
            return Outcome::Failed(Failure::Features);
        },
    };
    let (_, action) = step(phase, Event::Verdict(run_datalog(&features, &facts)), tally);
    match action {
        Action::Ack { outcome } => outcome,
        _ => {
            assert(false);
            Outcome::Failed(Failure::Verdict)
        },
    }
}

/// The actions issued for a sequence of events, starting at `p`.
pub open spec fn run(p: PhaseKind, evs: Seq<EventKind>) -> Seq<ActionKind>
    decreases evs.len(),
{
    if evs.len() == 0 {
        Seq::empty()
    } else {
        seq![transition(p, evs[0]).1] + run(transition(p, evs[0]).0, evs.drop_first())
    }
}

/// The phase reached after a sequence of events, starting at `p`.
pub open spec fn final_phase(p: PhaseKind, evs: Seq<EventKind>) -> PhaseKind
    decreases evs.len(),
{
    if evs.len() == 0 {
        p
    } else {
        final_phase(transition(p, evs[0]).0, evs.drop_first())
    }
}

/// Whether `a` acknowledges a message, completed (`Some(true)`), failed
/// (`Some(false)`), or either (`None`): 1 if so, else 0.
pub open spec fn ack_weight(a: ActionKind, completed: Option<bool>) -> nat {
    match a {
        ActionKind::Ack(c) => if completed is None || completed == Some(c) {
            1
        } else {
            0
        },
        _ => 0,
    }
}

/// How many of `acts` acknowledge a message of the kind `completed` selects.
pub open spec fn acks_in(acts: Seq<ActionKind>, completed: Option<bool>) -> nat
    decreases acts.len(),
{
    if acts.len() == 0 {
        0
    } else {
        ack_weight(acts[0], completed) + acks_in(acts.drop_first(), completed)
    }
}

/// The counters after all of `acts`.
pub open spec fn settle(t: Tally, acts: Seq<ActionKind>) -> Tally
    decreases acts.len(),
{
    if acts.len() == 0 {
        t
    } else {
        settle(t.after(acts[0]), acts.drop_first())
    }
}

/// The events of a message whose stages all succeed.
pub open spec fn success_events() -> Seq<EventKind> {
    seq![
        EventKind::Payload(true),
        EventKind::Features(true),
        EventKind::Facts,
        EventKind::Verdict(true),
    ]
}

/// The events of a message that fails at stage `f`.
pub open spec fn failure_events(f: Failure) -> Seq<EventKind> {
    match f {
        Failure::Decode => seq![EventKind::Payload(false)],
        Failure::Features => seq![EventKind::Payload(true), EventKind::Features(false)],
        Failure::Verdict => seq![
            EventKind::Payload(true),
            EventKind::Features(true),
            EventKind::Facts,
            EventKind::Verdict(false),
        ],
    }
}

proof fn lemma_acks_cons(a: ActionKind, rest: Seq<ActionKind>, c: Option<bool>)
    ensures
        acks_in(seq![a] + rest, c) == ack_weight(a, c) + acks_in(rest, c),
{
    assert((seq![a] + rest)[0] == a);
    assert((seq![a] + rest).drop_first() =~= rest);
    assert(seq![a].drop_first() =~= Seq::<ActionKind>::empty());
}

proof fn lemma_acked_stays(evs: Seq<EventKind>)
    ensures
        final_phase(PhaseKind::Acked, evs) == PhaseKind::Acked,
        acks_in(run(PhaseKind::Acked, evs), None) == 0,
    decreases evs.len(),
{
    if evs.len() > 0 {
        lemma_acked_stays(evs.drop_first());
        lemma_acks_cons(ActionKind::Ignore, run(PhaseKind::Acked, evs.drop_first()), None);
        assert(transition(PhaseKind::Acked, evs[0]) == (PhaseKind::Acked, ActionKind::Ignore));
    }
}

proof fn lemma_ack_count(p: PhaseKind, evs: Seq<EventKind>)
    ensures
        acks_in(run(p, evs), None) == if p != PhaseKind::Acked && final_phase(p, evs)
            == PhaseKind::Acked {
            1nat
        } else {
            0nat
        },
    decreases evs.len(),
{
    if p == PhaseKind::Acked {
        lemma_acked_stays(evs);
    } else if evs.len() > 0 {
        let q = transition(p, evs[0]).0;
        lemma_ack_count(q, evs.drop_first());
        lemma_acks_cons(transition(p, evs[0]).1, run(q, evs.drop_first()), None);
        if q == PhaseKind::Acked {
            lemma_acked_stays(evs.drop_first());
        }
    }
}

/// Every message is acknowledged at most once, and exactly once when its
/// handling reaches the acknowledged phase, whatever events come.
pub proof fn lemma_one_ack_per_message(evs: Seq<EventKind>)
    ensures
        acks_in(run(PhaseKind::Received, evs), None) <= 1,
        acks_in(run(PhaseKind::Received, evs), None) == 1 <==> final_phase(
            PhaseKind::Received,
            evs,
        ) == PhaseKind::Acked,
{
    lemma_ack_count(PhaseKind::Received, evs);
}

/// Counting a sequence of actions adds its acknowledgments to the
/// counters, as long as no counter reaches its largest value.
pub proof fn lemma_settle_counts(t: Tally, acts: Seq<ActionKind>)
    requires
        t.processed + acts.len() <= u64::MAX,
        t.errors + acts.len() <= u64::MAX,
        t.latency_observations + acts.len() <= u64::MAX,
        t.acks + acts.len() <= u64::MAX,
    ensures
        settle(t, acts).processed == t.processed + acks_in(acts, Some(true)),
        settle(t, acts).latency_observations == t.latency_observations + acks_in(acts, Some(true)),
        settle(t, acts).errors == t.errors + acks_in(acts, Some(false)),
        settle(t, acts).acks == t.acks + acks_in(acts, None),
    decreases acts.len(),
{
    if acts.len() > 0 {
        lemma_settle_counts(t.after(acts[0]), acts.drop_first());
    }
}

/// A message whose stages all succeed is acknowledged once, counts one
/// processed message and one latency observation, and leaves the error
/// counter as it was.
pub proof fn lemma_success_counts(t: Tally)
    requires
        t.processed < u64::MAX,
        t.latency_observations < u64::MAX,
        t.acks < u64::MAX,
    ensures
        acks_in(run(PhaseKind::Received, success_events()), None) == 1,
        settle(t, run(PhaseKind::Received, success_events())) == (Tally {
            processed: (t.processed + 1) as u64,
            latency_observations: (t.latency_observations + 1) as u64,
            acks: (t.acks + 1) as u64,
            ..t
        }),
{
    let evs = success_events();
    reveal_with_fuel(run, 5);
    reveal_with_fuel(settle, 5);
    reveal_with_fuel(acks_in, 5);
    assert(evs.drop_first().drop_first().drop_first().drop_first() =~= Seq::<EventKind>::empty());
}

/// A message that fails at any stage is acknowledged once, counts one
/// error, and leaves the processed and latency counters as they were.
pub proof fn lemma_failure_counts(t: Tally, f: Failure)
    requires
        t.errors < u64::MAX,
        t.acks < u64::MAX,
    ensures
        acks_in(run(PhaseKind::Received, failure_events(f)), None) == 1,
        settle(t, run(PhaseKind::Received, failure_events(f))) == (Tally {
            errors: (t.errors + 1) as u64,
            acks: (t.acks + 1) as u64,
            ..t
        }),
{
    let evs = failure_events(f);
    reveal_with_fuel(run, 5);
    reveal_with_fuel(settle, 5);
    reveal_with_fuel(acks_in, 5);
    match f {
        Failure::Decode => {
            assert(evs.drop_first() =~= Seq::<EventKind>::empty());
        },
        Failure::Features => {
            assert(evs.drop_first().drop_first() =~= Seq::<EventKind>::empty());
        },
        Failure::Verdict => {
            assert(evs.drop_first().drop_first().drop_first().drop_first() =~= Seq::<
                EventKind,
            >::empty());
        },
    }
}

/// Handling the same message twice issues the same actions both times,
/// and each handling moves the counters by the same amounts: nothing of
/// the first run carries into the second but the counters themselves.
pub proof fn lemma_redelivery(t: Tally, evs: Seq<EventKind>)
    requires
        t.processed + 2 * evs.len() <= u64::MAX,
        t.errors + 2 * evs.len() <= u64::MAX,
        t.latency_observations + 2 * evs.len() <= u64::MAX,
        t.acks + 2 * evs.len() <= u64::MAX,
    ensures
        ({
            let acts = run(PhaseKind::Received, evs);
            let once = settle(t, acts);
            let twice = settle(once, acts);
            &&& twice.processed - once.processed == once.processed - t.processed
            &&& twice.errors - once.errors == once.errors - t.errors
            &&& twice.latency_observations - once.latency_observations
                == once.latency_observations - t.latency_observations
            &&& twice.acks - once.acks == once.acks - t.acks
        }),
{
    let acts = run(PhaseKind::Received, evs);
    lemma_run_len(PhaseKind::Received, evs);
    lemma_acks_le_len(acts);
    lemma_settle_counts(t, acts);
    lemma_settle_counts(settle(t, acts), acts);
}

proof fn lemma_run_len(p: PhaseKind, evs: Seq<EventKind>)
    ensures
        run(p, evs).len() == evs.len(),
    decreases evs.len(),
{
    if evs.len() > 0 {
        lemma_run_len(transition(p, evs[0]).0, evs.drop_first());
    }
}

proof fn lemma_acks_le_len(acts: Seq<ActionKind>)
    ensures
        acks_in(acts, Some(true)) <= acts.len(),
        acks_in(acts, Some(false)) <= acts.len(),
        acks_in(acts, None) <= acts.len(),
    decreases acts.len(),
{
    if acts.len() > 0 {
        lemma_acks_le_len(acts.drop_first());
    }
}

/// What the pull sequence delivered to the consumer loop.
pub enum PullEvent {
    /// A message, with its raw payload.
    Message(Vec<u8>),
    /// The transport failed to deliver the next message.
    TransportError,
    /// The broker session closed and the sequence ended.
    Ended,
    /// The shutdown signal arrived.
    Shutdown,
}

/// What the consumer loop does next.
#[derive(Debug, PartialEq, Eq)]
pub enum LoopAction {
    /// Run the payload through the orchestrator, then pull again.
    Process(Vec<u8>),
    /// Pull again.
    Continue,
    /// Leave the loop.
    Stop,
}

/// One decision of the consumer loop: a message is processed, a transport
/// error is counted and pulling goes on, the end of the sequence or the
/// shutdown signal stops the loop.
pub fn consumer_step(event: PullEvent, tally: &mut Tally) -> (r: LoopAction)
    ensures
        match event {
            PullEvent::Message(p) => r == LoopAction::Process(p) && *final(tally) == *old(tally),
            PullEvent::TransportError => r is Continue && *final(tally) == (Tally {
                errors: bump(old(tally).errors),
                ..*old(tally)
            }),
            PullEvent::Ended => r is Stop && *final(tally) == *old(tally),
            PullEvent::Shutdown => r is Stop && *final(tally) == *old(tally),
        },
{
    match event {
        PullEvent::Message(p) => LoopAction::Process(p),
        PullEvent::TransportError => {
            tally.errors = bump_exec(tally.errors);
            LoopAction::Continue
        },
        PullEvent::Ended => LoopAction::Stop,
        PullEvent::Shutdown => LoopAction::Stop,
    }
}

} // verus!
