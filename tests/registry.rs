use prover::registry::{JobRegistry, LeaseState, RegistryError};
use prover::types::{ActionType, Operation};

const SECOND: u64 = 1000;

#[test]
fn register_prover_with_empty_name_fails() {
    let mut reg = JobRegistry::new();
    assert_eq!(reg.register_prover("", 0), Err(RegistryError::InvalidArgument));
    assert!(reg.prover_by_id(1).is_none());
}

#[test]
fn api_client_register_start_and_stop_of_prover() {
    let mut reg = JobRegistry::new();
    let id = reg.register_prover("foo", 5).expect("failed to register");
    let prover = reg.prover_by_id(id).expect("failed to select registered prover");
    assert_eq!(prover.worker_name, "foo");
    assert_eq!(prover.started_at, 5);
    assert!(prover.stopped_at.is_none());
    reg.prover_stopped(id, 9).expect("unexpected error");
    let prover = reg.prover_by_id(id).expect("failed to select registered prover");
    prover.stopped_at.expect("expected not empty");
    assert_eq!(prover.stopped_at, Some(9));
}

#[test]
fn prover_stopped_is_idempotent_and_checks_ids() {
    let mut reg = JobRegistry::new();
    let a = reg.register_prover("a", 0).unwrap();
    let b = reg.register_prover("b", 0).unwrap();
    assert_eq!((a, b), (1, 2));
    assert_eq!(reg.prover_stopped(b, 10), Ok(()));
    assert_eq!(reg.prover_stopped(b, 20), Ok(()));
    assert_eq!(reg.prover_by_id(b).unwrap().stopped_at, Some(10));
    assert!(reg.prover_by_id(a).unwrap().stopped_at.is_none());
    assert_eq!(reg.prover_stopped(0, 1), Err(RegistryError::NotFound));
    assert_eq!(reg.prover_stopped(3, 1), Err(RegistryError::NotFound));
}

#[test]
fn api_client_simple_simulation() {
    let prover_timeout = SECOND;
    let mut reg = JobRegistry::new();
    let mut now = 0;

    // nothing committed yet
    let to_prove = reg.next_unverified_commit("foo", prover_timeout, now);
    assert!(to_prove.is_none());

    assert!(reg.ingest_commit(1, now));
    now += 10 * SECOND;

    // should return block
    let to_prove = reg.next_unverified_commit("foo", prover_timeout, now);
    assert!(to_prove.is_some());

    // block is taken unless no heartbeat within prover_timeout
    let to_prove = reg.next_unverified_commit("foo", prover_timeout, now);
    assert!(to_prove.is_none());

    // make block available
    now += prover_timeout * 10;
    let to_prove = reg.next_unverified_commit("foo", prover_timeout, now);
    assert!(to_prove.is_some());

    let (block, job) = to_prove.unwrap();
    now += prover_timeout * 2;
    reg.working_on(job, now);

    let to_prove = reg.next_unverified_commit("foo", prover_timeout, now);
    assert!(to_prove.is_none());

    let wanted = vec![1u8, 2, 3];
    let prover_data = reg
        .poll_prover_data(block, Some(wanted.clone()), 0, 30 * 60 * SECOND)
        .expect("failed to get prover data");
    assert_eq!(prover_data, Some(wanted));
}

#[test]
fn api_server_publish_dummy() {
    let mut reg = JobRegistry::new();
    assert!(reg.ingest_commit(1, 0));
    let res = reg.publish_proof(1, Vec::new());
    assert_eq!(res, Ok(Operation { block: 1, action: ActionType::Verify }));
}

#[test]
fn lease_expiry_and_reclaim() {
    let mut reg = JobRegistry::new();
    assert!(reg.ingest_commit(17, 0));
    let (b1, j1) = reg.next_unverified_commit("A", SECOND, 0).unwrap();
    assert_eq!(b1, 17);
    assert!(reg.next_unverified_commit("B", SECOND, 0).is_none());
    let (b2, j2) = reg.next_unverified_commit("B", SECOND, 10 * SECOND).unwrap();
    assert_eq!(b2, 17);
    assert_ne!(j1, j2);
    match &reg.job_for_block(17).unwrap().lease {
        LeaseState::Held { worker_name, last_heartbeat_at } => {
            assert_eq!(worker_name, "B");
            assert_eq!(*last_heartbeat_at, 10 * SECOND);
        }
        _ => panic!("expected a held lease"),
    }
}

#[test]
fn lease_at_exact_timeout_is_still_held() {
    let mut reg = JobRegistry::new();
    reg.ingest_commit(3, 0);
    reg.next_unverified_commit("A", SECOND, 0).unwrap();
    assert!(reg.next_unverified_commit("B", SECOND, SECOND).is_none());
    assert!(reg.next_unverified_commit("B", SECOND, SECOND + 1).is_some());
}

#[test]
fn heartbeat_keeps_lease() {
    let mut reg = JobRegistry::new();
    reg.ingest_commit(17, 0);
    let (_, job) = reg.next_unverified_commit("A", SECOND, 0).unwrap();
    let mut now = 0;
    while now <= 3 * SECOND {
        reg.working_on(job, now);
        assert!(reg.next_unverified_commit("B", SECOND, now + 200).is_none());
        now += 400;
    }
}

#[test]
fn stale_heartbeat_is_ignored() {
    let mut reg = JobRegistry::new();
    reg.ingest_commit(5, 0);
    let (_, j1) = reg.next_unverified_commit("A", SECOND, 0).unwrap();
    let (_, j2) = reg.next_unverified_commit("B", SECOND, 5 * SECOND).unwrap();
    reg.working_on(j1, 6 * SECOND);
    reg.working_on(0, 6 * SECOND);
    match &reg.job_for_block(5).unwrap().lease {
        LeaseState::Held { worker_name, last_heartbeat_at } => {
            assert_eq!(worker_name, "B");
            assert_eq!(*last_heartbeat_at, 5 * SECOND);
        }
        _ => panic!("expected a held lease"),
    }
    assert_eq!(reg.job_for_block(5).unwrap().job_id, j2);
}

#[test]
fn late_publish_is_rejected() {
    let mut reg = JobRegistry::new();
    reg.ingest_commit(17, 0);
    reg.next_unverified_commit("A", SECOND, 0).unwrap();
    reg.next_unverified_commit("B", SECOND, 10 * SECOND).unwrap();
    assert!(reg.publish_proof(17, vec![0xb]).is_ok());
    assert_eq!(reg.publish_proof(17, vec![0xa]), Err(RegistryError::AlreadyPublished));
    match &reg.job_for_block(17).unwrap().lease {
        LeaseState::Done { proof } => assert_eq!(proof, &vec![0xb]),
        _ => panic!("expected a done job"),
    }
}

#[test]
fn published_block_is_never_selected_again() {
    let mut reg = JobRegistry::new();
    reg.ingest_commit(2, 0);
    reg.ingest_commit(4, 0);
    assert!(reg.publish_proof(2, vec![1]).is_ok());
    assert_eq!(reg.next_unverified_commit("A", 0, 100).map(|(b, _)| b), Some(4));
    assert!(reg.next_unverified_commit("A", 0, 100).is_none());
    assert!(reg.next_unverified_commit("A", 0, 1_000_000).map(|(b, _)| b) == Some(4));
}

#[test]
fn selection_takes_lowest_block_first() {
    let mut reg = JobRegistry::new();
    reg.ingest_commit(9, 0);
    reg.ingest_commit(3, 1);
    reg.ingest_commit(6, 2);
    let order: Vec<u64> = (0..3)
        .map(|_| reg.next_unverified_commit("w", SECOND, 5).unwrap().0)
        .collect();
    assert_eq!(order, vec![3, 6, 9]);
}

#[test]
fn ingest_is_idempotent_and_skips_block_zero() {
    let mut reg = JobRegistry::new();
    assert!(!reg.ingest_commit(0, 0));
    assert!(reg.ingest_commit(8, 0));
    assert!(!reg.ingest_commit(8, 1));
    assert_eq!(reg.job_for_block(8).unwrap().created_at, 0);
    assert!(reg.job_for_block(0).is_none());
}

#[test]
fn job_ids_are_fresh() {
    let mut reg = JobRegistry::new();
    reg.ingest_commit(1, 0);
    reg.ingest_commit(2, 0);
    let mut seen = Vec::new();
    for t in 0..4u64 {
        if let Some((_, id)) = reg.next_unverified_commit("w", 0, t * 10) {
            assert!(id != 0);
            assert!(!seen.contains(&id));
            seen.push(id);
        }
    }
    assert!(seen.len() >= 2);
}

#[test]
fn publish_unknown_block_is_not_found() {
    let mut reg = JobRegistry::new();
    assert_eq!(reg.publish_proof(42, vec![]), Err(RegistryError::NotFound));
}

#[test]
fn prover_data_polling() {
    let mut reg = JobRegistry::new();
    reg.ingest_commit(7, 0);
    assert_eq!(reg.poll_prover_data(8, Some(vec![1]), 0, 10), Err(RegistryError::NotFound));
    assert_eq!(reg.poll_prover_data(7, None, 5, 10), Ok(None));
    assert_eq!(reg.poll_prover_data(7, None, 10, 10), Err(RegistryError::Timeout));
    assert_eq!(reg.poll_prover_data(7, Some(vec![4, 2]), 50, 10), Ok(Some(vec![4, 2])));
}
