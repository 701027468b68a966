use nsai_detector::stages::{
    fetch_dgraph_facts, init_runtime, run_datalog, run_inference, DgraphFacts, NeuralFeatures,
    Verdict,
};

#[test]
fn test_run_inference() {
    let features = run_inference(&"test_hash".to_string()).unwrap();
    assert!(features.get(&"fakeness_score".to_string()).is_some());
    assert!(features.get(&"emotion_score".to_string()).is_some());
}

#[test]
fn inference_scores_are_fixed() {
    let features = run_inference(&"h".to_string()).unwrap();
    assert_eq!(features.get(&"fakeness_score".to_string()), Some(&500_000));
    assert_eq!(features.get(&"emotion_score".to_string()), Some(&300_000));
    assert_eq!(features.get(&"other".to_string()), None);
}

#[test]
fn test_safe_verdict() {
    let mut features = NeuralFeatures::new();
    features.insert("fakeness_score".to_string(), 300_000);

    let mut facts = DgraphFacts::new();
    facts.insert("source_trusted".to_string(), "true".to_string());

    let (verdict, _) = run_datalog(&features, &facts).unwrap();
    assert_eq!(verdict.label(), "SAFE");
}

#[test]
fn test_disinfo_verdict() {
    let mut features = NeuralFeatures::new();
    features.insert("fakeness_score".to_string(), 900_000);

    let mut facts = DgraphFacts::new();
    facts.insert("source_trusted".to_string(), "false".to_string());

    let (verdict, _) = run_datalog(&features, &facts).unwrap();
    assert_eq!(verdict.label(), "DISINFO");
}

#[test]
fn elevated_score_is_suspicious_whatever_the_facts() {
    let mut features = NeuralFeatures::new();
    features.insert("fakeness_score".to_string(), 700_000);
    let mut trusted = DgraphFacts::new();
    trusted.insert("source_trusted".to_string(), "true".to_string());
    let mut untrusted = DgraphFacts::new();
    untrusted.insert("source_trusted".to_string(), "false".to_string());
    for facts in [trusted, untrusted, DgraphFacts::new()] {
        let (verdict, explanation) = run_datalog(&features, &facts).unwrap();
        assert_eq!(verdict, Verdict::Suspicious);
        assert_eq!(explanation, "Elevated fakeness score detected");
    }
}

#[test]
fn high_score_from_trusted_source_is_suspicious() {
    let mut features = NeuralFeatures::new();
    features.insert("fakeness_score".to_string(), 900_000);
    let (verdict, _) = run_datalog(&features, &fetch_dgraph_facts(&"s".to_string())).unwrap();
    assert_eq!(verdict.label(), "SUSPICIOUS");
}

#[test]
fn thresholds_are_exclusive() {
    let mut features = NeuralFeatures::new();
    features.insert("fakeness_score".to_string(), 800_000);
    let (verdict, _) = run_datalog(&features, &DgraphFacts::new()).unwrap();
    assert_eq!(verdict, Verdict::Suspicious);
    features.insert("fakeness_score".to_string(), 600_000);
    let (verdict, explanation) = run_datalog(&features, &DgraphFacts::new()).unwrap();
    assert_eq!(verdict, Verdict::Safe);
    assert_eq!(explanation, "No rules fired (placeholder)");
}

#[test]
fn missing_facts_and_features_count_as_untrusted_and_zero() {
    let mut features = NeuralFeatures::new();
    features.insert("fakeness_score".to_string(), 800_001);
    let (verdict, explanation) = run_datalog(&features, &DgraphFacts::new()).unwrap();
    assert_eq!(verdict, Verdict::Disinfo);
    assert_eq!(explanation, "High fakeness score from untrusted source");
    let (verdict, _) = run_datalog(&NeuralFeatures::new(), &DgraphFacts::new()).unwrap();
    assert_eq!(verdict, Verdict::Safe);
}

#[test]
fn facts_trust_every_source() {
    let facts = fetch_dgraph_facts(&"source-1".to_string());
    assert_eq!(facts.get(&"source_trusted".to_string()), Some(&"true".to_string()));
}

#[test]
fn table_insert_replaces() {
    let mut t = NeuralFeatures::new();
    t.insert("a".to_string(), 1);
    t.insert("b".to_string(), 2);
    t.insert("a".to_string(), 3);
    assert_eq!(t.get(&"a".to_string()), Some(&3));
    assert_eq!(t.get(&"b".to_string()), Some(&2));
}

#[test]
fn labels() {
    assert_eq!(Verdict::Safe.label(), "SAFE");
    assert_eq!(Verdict::Suspicious.label(), "SUSPICIOUS");
    assert_eq!(Verdict::Disinfo.label(), "DISINFO");
    assert!(init_runtime().is_ok());
}
