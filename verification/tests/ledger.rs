use dora_core::config::NodeId;
use dora_core::daemon_messages::{DropToken, SharedMemoryId};
use dora_core::ledger::{ForcedAck, Ledger, LedgerError};

fn node(name: &str) -> NodeId {
    NodeId::new(name.to_string())
}

#[test]
fn region_is_released_by_the_last_acknowledgment() {
    let mut ledger = Ledger::new();
    let region = ledger.allocate(1024).unwrap();
    assert_eq!(region, SharedMemoryId(0));
    let token = DropToken(7);
    let consumers = vec![node("b"), node("c"), node("b")];
    assert_eq!(ledger.publish(region, &consumers, token), Ok(token));
    assert!(ledger.owes(region, &node("b")));
    assert!(ledger.owes(region, &node("c")));
    assert!(!ledger.owes(region, &node("d")));
    assert_eq!(ledger.acknowledge(&node("b"), token), None);
    assert!(ledger.is_live(region));
    assert!(!ledger.is_released(region));
    assert!(!ledger.owes(region, &node("b")));
    assert_eq!(ledger.acknowledge(&node("c"), token), Some(region));
    assert!(ledger.is_released(region));
    assert!(!ledger.is_live(region));
    assert_eq!(
        ledger.publish(region, &consumers, DropToken(8)),
        Err(LedgerError::UnknownRegion)
    );
}

#[test]
fn handles_are_never_given_out_twice() {
    let mut ledger = Ledger::new();
    let first = ledger.allocate(10).unwrap();
    let token = DropToken(1);
    assert_eq!(ledger.publish(first, &vec![node("b")], token), Ok(token));
    assert_eq!(ledger.acknowledge(&node("b"), token), Some(first));
    let second = ledger.allocate(10).unwrap();
    assert_eq!(first, SharedMemoryId(0));
    assert_eq!(second, SharedMemoryId(1));
    assert!(ledger.is_released(first));
    assert!(ledger.is_live(second));
}

#[test]
fn acknowledging_twice_is_acknowledging_once() {
    let mut ledger = Ledger::new();
    let region = ledger.allocate(8).unwrap();
    let token = DropToken(3);
    ledger.publish(region, &vec![node("b"), node("c")], token).unwrap();
    assert_eq!(ledger.acknowledge(&node("b"), token), None);
    assert_eq!(ledger.acknowledge(&node("b"), token), None);
    assert!(ledger.is_live(region));
    assert!(ledger.owes(region, &node("c")));
    assert_eq!(ledger.acknowledge(&node("c"), token), Some(region));
    assert_eq!(ledger.acknowledge(&node("c"), token), None);
    assert!(ledger.is_released(region));
}

#[test]
fn stray_acknowledgments_do_nothing() {
    let mut ledger = Ledger::new();
    let region = ledger.allocate(8).unwrap();
    let token = DropToken(3);
    ledger.publish(region, &vec![node("b")], token).unwrap();
    assert_eq!(ledger.acknowledge(&node("b"), DropToken(4)), None);
    assert_eq!(ledger.acknowledge(&node("x"), token), None);
    assert!(ledger.is_live(region));
    assert!(ledger.tracks(token));
    assert!(!ledger.tracks(DropToken(4)));
}

#[test]
fn publish_says_why_it_refuses() {
    let mut ledger = Ledger::new();
    let first = ledger.allocate(8).unwrap();
    let second = ledger.allocate(8).unwrap();
    let token = DropToken(3);
    assert_eq!(
        ledger.publish(SharedMemoryId(9), &vec![node("b")], token),
        Err(LedgerError::UnknownRegion)
    );
    assert_eq!(ledger.check_publish(first, token), None);
    assert_eq!(ledger.publish(first, &vec![node("b")], token), Ok(token));
    assert_eq!(
        ledger.publish(first, &vec![node("b")], DropToken(4)),
        Err(LedgerError::AlreadyPublished)
    );
    assert_eq!(
        ledger.publish(second, &vec![node("b")], token),
        Err(LedgerError::DuplicateToken)
    );
    assert_eq!(ledger.check_publish(second, token), Some(LedgerError::DuplicateToken));
    assert_eq!(
        ledger.check_publish(SharedMemoryId(9), token),
        Some(LedgerError::UnknownRegion)
    );
    assert!(ledger.is_live(second));
}

#[test]
fn a_region_without_consumers_is_released_at_once() {
    let mut ledger = Ledger::new();
    let region = ledger.allocate(8).unwrap();
    let token = DropToken(3);
    assert_eq!(ledger.publish(region, &vec![], token), Ok(token));
    assert!(ledger.is_released(region));
    assert!(!ledger.tracks(token));
}

#[test]
fn force_release_acknowledges_for_the_node() {
    let mut ledger = Ledger::new();
    let r0 = ledger.allocate(1).unwrap();
    let r1 = ledger.allocate(2).unwrap();
    let r2 = ledger.allocate(3).unwrap();
    let r3 = ledger.allocate(4).unwrap();
    ledger.publish(r0, &vec![node("b")], DropToken(10)).unwrap();
    ledger.publish(r1, &vec![node("b"), node("c")], DropToken(11)).unwrap();
    ledger.publish(r2, &vec![node("c")], DropToken(12)).unwrap();
    let report = ledger.force_release(&node("b"));
    assert_eq!(
        report,
        vec![
            ForcedAck { region: r0, token: DropToken(10), released: true },
            ForcedAck { region: r1, token: DropToken(11), released: false },
        ]
    );
    assert!(ledger.is_released(r0));
    assert!(ledger.is_live(r1));
    assert!(!ledger.owes(r1, &node("b")));
    assert!(ledger.owes(r1, &node("c")));
    assert!(ledger.is_live(r2));
    assert!(ledger.is_live(r3));
    assert_eq!(ledger.force_release(&node("b")), vec![]);
    assert_eq!(ledger.acknowledge(&node("c"), DropToken(11)), Some(r1));
}

#[test]
fn acknowledge_tokens_names_what_it_releases() {
    let mut ledger = Ledger::new();
    let r0 = ledger.allocate(1).unwrap();
    let r1 = ledger.allocate(2).unwrap();
    let r2 = ledger.allocate(3).unwrap();
    ledger.publish(r0, &vec![node("b")], DropToken(10)).unwrap();
    ledger.publish(r1, &vec![node("b"), node("c")], DropToken(11)).unwrap();
    ledger.publish(r2, &vec![node("b")], DropToken(12)).unwrap();
    let released = ledger.acknowledge_tokens(
        &node("b"),
        &vec![DropToken(12), DropToken(11), DropToken(99), DropToken(10), DropToken(12)],
    );
    assert_eq!(released, vec![r2, r0]);
    assert!(ledger.is_live(r1));
}
