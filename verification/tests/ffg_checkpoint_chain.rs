use zkp::beacon::Checkpoint;
use zkp::ffg_checkpoint_chain::{verify_checkpoint_chain, verify_finalization_reachable};

fn cp(epoch: u64, tag: u8) -> Checkpoint {
    let mut root = [0u8; 32]; root[0] = tag;
    Checkpoint { epoch, root }
}

#[test]
fn valid_chain() {
    let chain = vec![cp(0, 0), cp(1, 1), cp(2, 2), cp(3, 3)];
    verify_checkpoint_chain(&chain).unwrap();
}

#[test]
fn non_increasing_fails() {
    let chain = vec![cp(0, 0), cp(2, 1), cp(1, 2)];
    assert!(verify_checkpoint_chain(&chain).is_err());
}

#[test]
fn finalization_reachable() {
    let anchor = cp(0, 0);
    let fin = cp(3, 3);
    let chain = vec![cp(0, 0), cp(1, 1), cp(2, 2), cp(3, 3)];
    verify_finalization_reachable(&anchor, &fin, &chain).unwrap();
}

#[test]
fn wrong_anchor_fails() {
    let chain = vec![cp(1, 1), cp(2, 2)];
    assert!(verify_finalization_reachable(&cp(0, 0), &cp(2, 2), &chain).is_err());
}
