//! The three analysis stages: feature extraction, fact lookup and verdict
//! rules. Scores are integers in parts per million (0.75 is 750_000).

use vstd::prelude::*;
use crate::table::KeyedTable;

verus! {

/// Feature name to score, in parts per million.
pub type NeuralFeatures = KeyedTable<u32>;

/// Fact key to fact value, as read from the knowledge store.
pub type DgraphFacts = KeyedTable<String>;

/// A stage could not produce its output.
#[derive(Clone, Copy, Debug, PartialEq, Eq)]
pub struct StageError;

/// The label of a verdict.
#[derive(Clone, Copy, Debug, PartialEq, Eq, Structural)]
pub enum Verdict {
    Safe,
    Suspicious,
    Disinfo,
}

/// Fakeness above this (parts per million) from an untrusted source is disinformation.
pub const DISINFO_THRESHOLD: u32 = 800_000;

/// Fakeness above this (parts per million) is suspicious.
pub const SUSPICIOUS_THRESHOLD: u32 = 600_000;

/// The fakeness score used by the rules: the `fakeness_score` feature, or 0.
pub open spec fn fakeness_of(f: Map<Seq<char>, u32>) -> u32 {
    if f.contains_key("fakeness_score"@) {
        f["fakeness_score"@]
    } else {
        0
    }
}

/// Whether the facts mark the source as trusted: `source_trusted` is `"true"`.
pub open spec fn trusted_of(d: Map<Seq<char>, String>) -> bool {
    d.contains_key("source_trusted"@) && d["source_trusted"@]@ == "true"@
}

/// The verdict rules.
pub open spec fn verdict_rule(fakeness: u32, trusted: bool) -> Verdict {
    if fakeness > DISINFO_THRESHOLD && !trusted {
        Verdict::Disinfo
    } else if fakeness > SUSPICIOUS_THRESHOLD {
        Verdict::Suspicious
    } else {
        Verdict::Safe
    }
}

/// The explanation that goes with each verdict.
pub open spec fn explanation_of(v: Verdict) -> Seq<char> {
    match v {
        Verdict::Disinfo => "High fakeness score from untrusted source"@,
        Verdict::Suspicious => "Elevated fakeness score detected"@,
        Verdict::Safe => "No rules fired (placeholder)"@,
    }
}

impl Verdict {
    /// The verdict's name as text.
    pub open spec fn label_spec(self) -> Seq<char> {
        match self {
            Verdict::Safe => "SAFE"@,
            Verdict::Suspicious => "SUSPICIOUS"@,
            Verdict::Disinfo => "DISINFO"@,
        }
    }

    /// The verdict's name as text: `SAFE`, `SUSPICIOUS` or `DISINFO`.
    pub fn label(&self) -> (r: String)
        ensures
            r@ == self.label_spec(),
    {
        match self {
            Verdict::Safe => "SAFE".to_string(),
            Verdict::Suspicious => "SUSPICIOUS".to_string(),
            Verdict::Disinfo => "DISINFO".to_string(),
        }
    }
}

/// Prepares the feature model; the built-in model needs no setup.
pub fn init_runtime() -> (r: Result<(), StageError>)
    ensures
        r is Ok,
{
    Ok(())
}

/// Feature extraction for the content with hash `content_hash`. The
/// built-in model gives fixed scores: fakeness 500_000, emotion 300_000.
pub fn run_inference(content_hash: &String) -> (r: Result<NeuralFeatures, StageError>)
    ensures
        r matches Ok(f) && f@ == map![
            "fakeness_score"@ => 500_000u32,
            "emotion_score"@ => 300_000u32,
        ],
{
    let mut features = NeuralFeatures::new();
    features.insert("fakeness_score".to_string(), 500_000);
    features.insert("emotion_score".to_string(), 300_000);
    assert(features@ =~= map!["fakeness_score"@ => 500_000u32, "emotion_score"@ => 300_000u32]);
    Ok(features)
}

/// Facts about the source `source_id`. The built-in store trusts every source.
pub fn fetch_dgraph_facts(source_id: &String) -> (r: DgraphFacts)
    ensures
        r@.dom() == set!["source_trusted"@],
        r@["source_trusted"@]@ == "true"@,
{
    let mut facts = DgraphFacts::new();
    facts.insert("source_trusted".to_string(), "true".to_string());
    assert(facts@.dom() =~= set!["source_trusted"@]);
    facts
}

/// Applies the verdict rules to the features and facts: high fakeness
/// from an untrusted source is `DISINFO`, elevated fakeness is
/// `SUSPICIOUS`, anything else `SAFE`.
pub fn run_datalog(neural_features: &NeuralFeatures, dgraph_facts: &DgraphFacts) -> (r: Result<
    (Verdict, String),
    StageError,
>)
    ensures
        r matches Ok((v, e)) && v == verdict_rule(
            fakeness_of(neural_features@),
            trusted_of(dgraph_facts@),
        ) && e@ == explanation_of(v),
{
    let fakeness: u32 = match neural_features.get(&"fakeness_score".to_string()) {
        Some(v) => *v,
        None => 0,
    };
    let source_trusted: bool = match dgraph_facts.get(&"source_trusted".to_string()) {
        Some(v) => *v == "true".to_string(),
        None => false,
    };
    if fakeness > DISINFO_THRESHOLD && !source_trusted {
        Ok((Verdict::Disinfo, "High fakeness score from untrusted source".to_string()))
    } else if fakeness > SUSPICIOUS_THRESHOLD {
        Ok((Verdict::Suspicious, "Elevated fakeness score detected".to_string()))
    } else {
        Ok((Verdict::Safe, "No rules fired (placeholder)".to_string()))
    }
}

} // verus!
