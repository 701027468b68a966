use nsai_detector::exporter::{route, Route};
use nsai_detector::codec::{encode, AnalysisInput};
use nsai_detector::pipeline::{consumer_step, LoopAction, PullEvent};
use nsai_detector::pipeline::{process_payload, step, Action, Event, Failure, Outcome, Phase, Tally};
use nsai_detector::stages::{DgraphFacts, NeuralFeatures, StageError, Verdict};

fn sample() -> AnalysisInput {
    AnalysisInput {
        content_hash: "abc123".to_string(),
        content_text: "Test content".to_string(),
        source_id: "source-1".to_string(),
        image_url: "https://example.com/img.png".to_string(),
    }
}

fn zero() -> Tally {
    Tally::new()
}

#[test]
fn fresh_tally_is_zero() {
    let t = Tally::new();
    assert_eq!((t.processed, t.errors, t.latency_observations, t.acks), (0, 0, 0, 0));
}

#[test]
fn malformed_payload_acks_once_and_counts_an_error() {
    let mut t = zero();
    let outcome = process_payload(vec![0x0a, 9, b'x'], &mut t);
    assert_eq!(outcome, Outcome::Failed(Failure::Decode));
    assert_eq!((t.processed, t.errors, t.latency_observations, t.acks), (0, 1, 0, 1));
}

#[test]
fn successful_message_counts_one_processed() {
    let mut t = zero();
    let outcome = process_payload(encode(&sample()), &mut t);
    assert_eq!(
        outcome,
        Outcome::Completed { verdict: Verdict::Safe, explanation: "No rules fired (placeholder)".to_string() }
    );
    assert_eq!((t.processed, t.errors, t.latency_observations, t.acks), (1, 0, 1, 1));
}

#[test]
fn redelivered_message_is_handled_the_same_way() {
    let mut t = zero();
    let first = process_payload(encode(&sample()), &mut t);
    let second = process_payload(encode(&sample()), &mut t);
    assert_eq!(first, second);
    assert_eq!((t.processed, t.errors, t.acks), (2, 0, 2));
}

#[test]
fn step_walks_through_every_phase() {
    let mut t = zero();
    let (phase, action) = step(Phase::Received, Event::Payload(encode(&sample())), &mut t);
    match action {
        Action::ExtractFeatures { content_hash } => assert_eq!(content_hash, "abc123"),
        _ => panic!("expected feature extraction"),
    }
    let mut f = NeuralFeatures::new();
    f.insert("fakeness_score".to_string(), 900_000);
    let (phase, action) = step(phase, Event::Features(Ok(f)), &mut t);
    match action {
        Action::FetchFacts { source_id } => assert_eq!(source_id, "source-1"),
        _ => panic!("expected fact lookup"),
    }
    let mut d = DgraphFacts::new();
    d.insert("source_trusted".to_string(), "false".to_string());
    let (phase, action) = step(phase, Event::Facts(d), &mut t);
    assert!(matches!(action, Action::Evaluate { .. }));
    assert_eq!(t.acks, 0);
    let (phase, action) =
        step(phase, Event::Verdict(Ok((Verdict::Disinfo, "x".to_string()))), &mut t);
    assert!(matches!(phase, Phase::Acked));
    assert!(matches!(
        action,
        Action::Ack { outcome: Outcome::Completed { verdict: Verdict::Disinfo, .. } }
    ));
    assert_eq!((t.processed, t.errors, t.acks), (1, 0, 1));
    let (_, action) = step(phase, Event::Facts(DgraphFacts::new()), &mut t);
    assert!(matches!(action, Action::Ignore));
    assert_eq!(t.acks, 1);
}

#[test]
fn feature_failure_acks_with_an_error() {
    let mut t = zero();
    let (phase, _) = step(Phase::Received, Event::Payload(encode(&sample())), &mut t);
    let (phase, action) = step(phase, Event::Features(Err(StageError)), &mut t);
    assert!(matches!(phase, Phase::Acked));
    assert!(matches!(action, Action::Ack { outcome: Outcome::Failed(Failure::Features) }));
    assert_eq!((t.processed, t.errors, t.latency_observations, t.acks), (0, 1, 0, 1));
}

#[test]
fn verdict_failure_acks_with_an_error() {
    let mut t = zero();
    let (phase, _) = step(Phase::Received, Event::Payload(encode(&sample())), &mut t);
    let (phase, _) = step(phase, Event::Features(Ok(NeuralFeatures::new())), &mut t);
    let (phase, _) = step(phase, Event::Facts(DgraphFacts::new()), &mut t);
    let (_, action) = step(phase, Event::Verdict(Err(StageError)), &mut t);
    assert!(matches!(action, Action::Ack { outcome: Outcome::Failed(Failure::Verdict) }));
    assert_eq!((t.processed, t.errors, t.acks), (0, 1, 1));
}

#[test]
fn counters_stop_at_their_largest_value() {
    let mut t = Tally { processed: u64::MAX, errors: 0, latency_observations: 0, acks: 0 };
    t.record(&Outcome::Completed { verdict: Verdict::Safe, explanation: String::new() });
    assert_eq!((t.processed, t.latency_observations, t.acks), (u64::MAX, 1, 1));
}

#[test]
fn only_the_metrics_path_is_served() {
    assert_eq!(route(&"/metrics".to_string()), Route::Metrics);
    assert_eq!(route(&"/".to_string()), Route::NotFound);
    assert_eq!(route(&"/metrics/".to_string()), Route::NotFound);
}

#[test]
fn consumer_loop_decisions() {
    let mut t = zero();
    assert_eq!(consumer_step(PullEvent::Message(vec![1, 2]), &mut t), LoopAction::Process(vec![1, 2]));
    assert_eq!(t, zero());
    assert_eq!(consumer_step(PullEvent::TransportError, &mut t), LoopAction::Continue);
    assert_eq!((t.processed, t.errors, t.latency_observations, t.acks), (0, 1, 0, 0));
    assert_eq!(consumer_step(PullEvent::Ended, &mut t), LoopAction::Stop);
    assert_eq!(consumer_step(PullEvent::Shutdown, &mut t), LoopAction::Stop);
    assert_eq!(t.errors, 1);
}
