use prover::worker::{
    heartbeat_tick, next_round_step, BabyProverError, HeartbeatAction, RoundAction, RoundEvent,
};

#[test]
fn round_start_fetches_a_job() {
    let step = next_round_step(false, RoundEvent::RoundStart);
    assert!(matches!(step.action, RoundAction::FetchJob));
    assert_eq!(step.heartbeat, None);
}

#[test]
fn no_job_signals_zero_and_pauses() {
    let step = next_round_step(false, RoundEvent::JobFetched(None));
    assert!(matches!(step.action, RoundAction::Pause));
    assert_eq!(step.heartbeat, Some(0));
}

#[test]
fn fetched_job_is_announced_and_data_requested() {
    let step = next_round_step(false, RoundEvent::JobFetched(Some((17, 4))));
    assert!(matches!(step.action, RoundAction::FetchData { block: 17 }));
    assert_eq!(step.heartbeat, Some(4));
    let step = next_round_step(false, RoundEvent::JobFetched(Some((17, 0))));
    assert!(matches!(step.action, RoundAction::Pause));
    assert_eq!(step.heartbeat, Some(0));
}

#[test]
fn round_proceeds_to_publish() {
    let step = next_round_step(false, RoundEvent::DataFetched { block: 3 });
    assert!(matches!(step.action, RoundAction::Prove { block: 3 }));
    let step = next_round_step(false, RoundEvent::ProofCreated { block: 3, self_verified: true });
    assert!(matches!(step.action, RoundAction::Publish { block: 3 }));
    let step = next_round_step(false, RoundEvent::Published);
    assert!(matches!(step.action, RoundAction::Pause));
}

#[test]
fn unverified_proof_is_internal() {
    let step = next_round_step(false, RoundEvent::ProofCreated { block: 3, self_verified: false });
    match step.action {
        RoundAction::Exit(BabyProverError::Internal(m)) => {
            assert_eq!(m, "created proof did not pass verification")
        }
        _ => panic!("expected an internal exit"),
    }
}

#[test]
fn api_failure_abandons_round_internal_exits() {
    let step = next_round_step(false, RoundEvent::ApiFailed("down".to_string()));
    assert!(matches!(step.action, RoundAction::Pause));
    let step = next_round_step(true, RoundEvent::InternalFailed("circuit".to_string()));
    match step.action {
        RoundAction::Exit(BabyProverError::Internal(m)) => assert_eq!(m, "circuit"),
        _ => panic!("expected an internal exit"),
    }
}

#[test]
fn stop_flag_exits_with_stop() {
    for ev in vec![
        RoundEvent::RoundStart,
        RoundEvent::DataFetched { block: 1 },
        RoundEvent::Published,
        RoundEvent::ApiFailed("x".to_string()),
    ] {
        let step = next_round_step(true, ev);
        assert!(matches!(step.action, RoundAction::Exit(BabyProverError::Stop)));
    }
}

#[test]
fn error_descriptions() {
    assert_eq!(BabyProverError::Stop.description(), "stop");
    assert_eq!(BabyProverError::Api("no route".to_string()).description(), "no route");
    assert_eq!(BabyProverError::Internal("bad".to_string()).description(), "bad");
}

#[test]
fn heartbeat_follows_signals() {
    let mut job = 0;
    assert_eq!(heartbeat_tick(&mut job, None, false), HeartbeatAction::Idle);
    assert_eq!(heartbeat_tick(&mut job, Some((7, false)), false), HeartbeatAction::WorkingOn(7));
    assert_eq!(job, 7);
    assert_eq!(heartbeat_tick(&mut job, None, false), HeartbeatAction::WorkingOn(7));
    assert_eq!(heartbeat_tick(&mut job, Some((0, false)), false), HeartbeatAction::Idle);
    assert_eq!(job, 0);
    assert_eq!(heartbeat_tick(&mut job, Some((0, true)), false), HeartbeatAction::Quit);
    job = 5;
    assert_eq!(heartbeat_tick(&mut job, Some((9, false)), true), HeartbeatAction::Quit);
    assert_eq!(job, 5);
}
