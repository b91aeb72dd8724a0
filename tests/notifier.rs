use prover::cache::{AccountCache, LruCache};
use prover::notifier::{BlockEvent, EventNotifier, Notification, Subject, Subscription};
use prover::types::ActionType;

fn event(block: u64, action: ActionType, txs: Vec<u64>, ops: Vec<u64>, accounts: Vec<u64>) -> BlockEvent {
    BlockEvent { block, action, txs, priority_ops: ops, accounts }
}

#[test]
fn publish_triggers_verify_notification() {
    let mut n = EventNotifier::new();
    let (id, now) = n.subscribe(Subject::Tx(0x77), ActionType::Verify, None);
    assert!(now.is_none());
    let out = n.handle_event(&event(5, ActionType::Verify, vec![0x77], vec![], vec![]));
    assert_eq!(
        out,
        vec![Notification { sub_id: id, subject: Subject::Tx(0x77), action: ActionType::Verify, block: 5 }]
    );
    assert!(n.pending().is_empty());
    let again = n.handle_event(&event(5, ActionType::Verify, vec![0x77], vec![], vec![]));
    assert!(again.is_empty());
}

#[test]
fn subscribe_after_the_fact_fires_immediately() {
    let mut n = EventNotifier::new();
    let (id, now) = n.subscribe(Subject::Tx(0x77), ActionType::Verify, Some(12));
    assert_eq!(
        now,
        Some(Notification { sub_id: id, subject: Subject::Tx(0x77), action: ActionType::Verify, block: 12 })
    );
    assert!(n.pending().is_empty());
}

#[test]
fn verify_event_does_not_fire_commit_subscription() {
    let mut n = EventNotifier::new();
    let (c, _) = n.subscribe(Subject::Account(3), ActionType::Commit, None);
    let (v, _) = n.subscribe(Subject::Account(3), ActionType::Verify, None);
    let commit = event(9, ActionType::Commit, vec![], vec![], vec![3]);
    let verify = event(9, ActionType::Verify, vec![], vec![], vec![3]);
    let first = n.handle_event(&commit);
    assert_eq!(first.iter().map(|x| x.sub_id).collect::<Vec<_>>(), vec![c]);
    let second = n.handle_event(&verify);
    assert_eq!(second.iter().map(|x| x.sub_id).collect::<Vec<_>>(), vec![v]);
    assert!(n.pending().is_empty());
}

#[test]
fn executed_ops_fire_priority_op_commit() {
    let mut n = EventNotifier::new();
    let (a, _) = n.subscribe(Subject::PriorityOp(40), ActionType::Commit, None);
    let (_b, _) = n.subscribe(Subject::PriorityOp(41), ActionType::Commit, None);
    let out = n.handle_event(&event(2, ActionType::Commit, vec![], vec![40], vec![]));
    assert_eq!(out.len(), 1);
    assert_eq!(out[0].sub_id, a);
    assert_eq!(n.pending().len(), 1);
}

#[test]
fn subscribe_then_unsubscribe_leaves_nothing() {
    let mut n = EventNotifier::new();
    let (keep, _) = n.subscribe(Subject::Tx(1), ActionType::Commit, None);
    let before: Vec<Subscription> = n.pending().clone();
    let (id, _) = n.subscribe(Subject::Tx(2), ActionType::Commit, None);
    assert!(n.unsubscribe(id));
    assert_eq!(n.pending(), &before);
    assert!(!n.unsubscribe(id));
    assert_eq!(n.pending()[0].id, keep);
    let out = n.handle_event(&event(1, ActionType::Commit, vec![2], vec![], vec![]));
    assert!(out.is_empty());
}

#[test]
fn subscription_ids_are_unique() {
    let mut n = EventNotifier::new();
    let ids: Vec<u64> = (0..5).map(|i| n.subscribe(Subject::Tx(i), ActionType::Commit, None).0).collect();
    assert_eq!(ids, vec![0, 1, 2, 3, 4]);
    let out = n.handle_event(&event(1, ActionType::Commit, vec![0, 1, 2, 3, 4, 0], vec![], vec![]));
    assert_eq!(out.iter().map(|x| x.sub_id).collect::<Vec<_>>(), vec![0, 1, 2, 3, 4]);
}

#[test]
fn lru_evicts_least_recently_used() {
    let mut c: LruCache<u32> = LruCache::new(2);
    c.put(1, 10);
    c.put(2, 20);
    assert_eq!(c.get(1), Some(&10));
    c.put(3, 30);
    assert_eq!(c.get(2), None);
    assert_eq!(c.get(1), Some(&10));
    assert_eq!(c.get(3), Some(&30));
    c.put(3, 31);
    assert_eq!(c.len(), 2);
    assert_eq!(c.get(3), Some(&31));
}

#[test]
fn lru_of_capacity_zero_keeps_nothing() {
    let mut c: LruCache<u32> = LruCache::new(0);
    c.put(1, 10);
    assert_eq!(c.len(), 0);
    assert_eq!(c.get(1), None);
}

#[test]
fn account_cache_is_per_action() {
    let mut c: AccountCache<&str> = AccountCache::new(1);
    c.put(5, ActionType::Commit, "committed");
    c.put(5, ActionType::Verify, "verified");
    c.put(6, ActionType::Commit, "other");
    assert_eq!(c.get(5, ActionType::Commit), None);
    assert_eq!(c.get(6, ActionType::Commit), Some(&"other"));
    assert_eq!(c.get(5, ActionType::Verify), Some(&"verified"));
}
