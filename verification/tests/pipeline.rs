use gudot::pipeline::advance;
use gudot::pipeline::artifact_name;
use gudot::pipeline::keys_artifact_name;
use gudot::pipeline::next_stage;
use gudot::pipeline::Stage;

#[test]
fn stages_run_in_order_and_terminate() {
    let order = [
        Stage::Raw,
        Stage::Generated,
        Stage::Encrypted,
        Stage::Distributed,
        Stage::Collected,
        Stage::Decrypted,
        Stage::Regressed,
        Stage::Plotted,
    ];
    let mut current = Stage::Raw;
    let mut visited = vec![current];
    while let Some(next) = next_stage(&current) {
        current = next;
        visited.push(current);
    }
    assert_eq!(visited.as_slice(), order.as_slice());
}

#[test]
fn a_failed_stage_aborts_the_run() {
    assert_eq!(advance(&Stage::Generated, false), None);
    assert_eq!(advance(&Stage::Generated, true), Some(Stage::Encrypted));
    assert_eq!(advance(&Stage::Plotted, true), None);
}

#[test]
fn each_stage_owns_its_artifact() {
    assert_eq!(artifact_name(&Stage::Raw), None);
    assert_eq!(artifact_name(&Stage::Generated).unwrap(), "input.json");
    assert_eq!(artifact_name(&Stage::Encrypted).unwrap(), "enc_input.json");
    assert_eq!(artifact_name(&Stage::Distributed), None);
    assert_eq!(artifact_name(&Stage::Collected).unwrap(), "enc_output.json");
    assert_eq!(artifact_name(&Stage::Decrypted).unwrap(), "output.json");
    assert_eq!(artifact_name(&Stage::Regressed).unwrap(), "regress.json");
    assert_eq!(artifact_name(&Stage::Plotted).unwrap(), "plot.svg");
    assert_eq!(keys_artifact_name(), "keys.json");
}
