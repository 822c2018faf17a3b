//! Pipeline orchestrator: the file-artifact state machine sequencing
//! the stages, in order:
//! raw input → generated → normalized and encrypted → distributed
//! (external) → collected → decrypted → regressed → plotted.
//!
//! Each stage is a function from predecessor artifacts to one successor
//! artifact; a full run executes the stages in order and aborts on the
//! first failure, leaving earlier artifacts in place.

use vstd::prelude::*;

verus! {

/// One state of the pipeline: the latest artifact that exists.
#[derive(Debug, Clone, Copy, PartialEq, Eq, Structural)]
pub enum Stage {
    Raw,
    Generated,
    Encrypted,
    Distributed,
    Collected,
    Decrypted,
    Regressed,
    Plotted,
}

/// Position of a stage in the pipeline order.
pub open spec fn stage_index(s: Stage) -> int {
    match s {
        Stage::Raw => 0,
        Stage::Generated => 1,
        Stage::Encrypted => 2,
        Stage::Distributed => 3,
        Stage::Collected => 4,
        Stage::Decrypted => 5,
        Stage::Regressed => 6,
        Stage::Plotted => 7,
    }
}

/// The stage that follows `s`, if any: the pipeline is a straight line
/// ending at the plotted artifact.
pub open spec fn successor(s: Stage) -> Option<Stage> {
    match s {
        Stage::Raw => Some(Stage::Generated),
        Stage::Generated => Some(Stage::Encrypted),
        Stage::Encrypted => Some(Stage::Distributed),
        Stage::Distributed => Some(Stage::Collected),
        Stage::Collected => Some(Stage::Decrypted),
        Stage::Decrypted => Some(Stage::Regressed),
        Stage::Regressed => Some(Stage::Plotted),
        Stage::Plotted => None,
    }
}

/// Every step moves exactly one position forward, and only the final
/// stage has no successor: a full run visits each stage exactly once and
/// terminates.
pub proof fn lemma_successor_advances(s: Stage)
    ensures
        match successor(s) {
            Some(n) => stage_index(n) == stage_index(s) + 1,
            None => s == Stage::Plotted,
        },
{
}

/// The stage that follows `s` in a run, if any.
pub fn next_stage(s: &Stage) -> (r: Option<Stage>)
    ensures
        r == successor(*s),
{
    match s {
        Stage::Raw => Some(Stage::Generated),
        Stage::Generated => Some(Stage::Encrypted),
        Stage::Encrypted => Some(Stage::Distributed),
        Stage::Distributed => Some(Stage::Collected),
        Stage::Collected => Some(Stage::Decrypted),
        Stage::Decrypted => Some(Stage::Regressed),
        Stage::Regressed => Some(Stage::Plotted),
        Stage::Plotted => None,
    }
}

/// Advance the state machine after one stage has run: move to the
/// successor on success, abort the run on the first failure. A finished or
/// aborted run yields no further stage to execute.
pub fn advance(s: &Stage, succeeded: bool) -> (r: Option<Stage>)
    ensures
        succeeded ==> r == successor(*s),
        !succeeded ==> r == None::<Stage>,
{
    if succeeded {
        next_stage(s)
    } else {
        None
    }
}

/// The artifact file a stage writes, if it writes one: the raw state owns
/// no artifact, and the distributed stage's results live with the external
/// dispatcher until they are collected.
pub fn artifact_name(s: &Stage) -> (r: Option<String>)
    ensures
        match *s {
            Stage::Raw => r is None,
            Stage::Generated => r is Some && r->0@ == "input.json"@,
            Stage::Encrypted => r is Some && r->0@ == "enc_input.json"@,
            Stage::Distributed => r is None,
            Stage::Collected => r is Some && r->0@ == "enc_output.json"@,
            Stage::Decrypted => r is Some && r->0@ == "output.json"@,
            Stage::Regressed => r is Some && r->0@ == "regress.json"@,
            Stage::Plotted => r is Some && r->0@ == "plot.svg"@,
        },
{
    match s {
        Stage::Raw => None,
        Stage::Generated => Some(String::from_str("input.json")),
        Stage::Encrypted => Some(String::from_str("enc_input.json")),
        Stage::Distributed => None,
        Stage::Collected => Some(String::from_str("enc_output.json")),
        Stage::Decrypted => Some(String::from_str("output.json")),
        Stage::Regressed => Some(String::from_str("regress.json")),
        Stage::Plotted => Some(String::from_str("plot.svg")),
    }
}

/// The artifact file the key pair is persisted to, beside the encrypted
/// input.
pub fn keys_artifact_name() -> (r: String)
    ensures
        r@ == "keys.json"@,
{
    String::from_str("keys.json")
}

} // verus!
