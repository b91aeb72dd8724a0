//! Decisions of a proving worker. The worker runs two streams: rounds (fetch
//! a job, fetch its witness, prove, publish) and heartbeats for the job in
//! hand. The network calls, the proving and the sleeps are performed by the
//! caller; these functions say, from what just happened, what to do next.
use vstd::prelude::*;

verus! {

/// Why a worker's rounds stop or a round is abandoned.
#[derive(Clone, Debug)]
pub enum BabyProverError {
    /// A network or registry-side failure; the round is abandoned.
    Api(String),
    /// A local failure (circuit, self-verification); the worker exits.
    Internal(String),
    /// Graceful shutdown.
    Stop,
}

pub open spec fn error_text(e: BabyProverError) -> Seq<char> {
    match e {
        BabyProverError::Api(s) => s@,
        BabyProverError::Internal(s) => s@,
        BabyProverError::Stop => "stop"@,
    }
}

impl BabyProverError {
    /// The message the error carries, or `stop`.
    pub fn description(&self) -> (r: String)
        ensures
            r@ == error_text(*self),
    {
        match self {
            BabyProverError::Api(s) => s.clone(),
            BabyProverError::Internal(s) => s.clone(),
            BabyProverError::Stop => {
                proof {
                    reveal_strlit("stop");
                }
                "stop".to_owned()
            },
        }
    }
}

/// What the last step of a round produced.
#[derive(Clone, Debug)]
pub enum RoundEvent {
    /// A new round begins (at start, or after the pause between rounds).
    RoundStart,
    /// The registry answered the request for a job.
    JobFetched(Option<(i64, i32)>),
    /// The witness for `block` arrived.
    DataFetched { block: i64 },
    /// A proof for `block` was built; `self_verified` tells whether it passed
    /// the local check against the verifying key.
    ProofCreated { block: i64, self_verified: bool },
    /// The registry accepted the proof.
    Published,
    /// A network or registry call failed.
    ApiFailed(String),
    /// Building the circuit or the proof failed.
    InternalFailed(String),
}

/// What the worker does next.
#[derive(Clone, Debug)]
pub enum RoundAction {
    FetchJob,
    FetchData { block: i64 },
    Prove { block: i64 },
    Publish { block: i64 },
    /// End the round: pause, then start the next one.
    Pause,
    /// Leave the rounds loop with this error.
    Exit(BabyProverError),
}

/// The next action, and the job id to hand to the heartbeat stream, if any.
#[derive(Clone, Debug)]
pub struct RoundStep {
    pub action: RoundAction,
    pub heartbeat: Option<i32>,
}

pub open spec fn unverified_proof_text() -> Seq<char> {
    "created proof did not pass verification"@
}

/// `r` is the step a worker takes after `event`, with `stop` the shutdown
/// flag. An internal failure, or a proof that fails its local check, ends the
/// worker even when a stop was asked for; otherwise a stop ends it at the next
/// step. A fetched job (or its absence, as id 0) is handed to the heartbeat
/// stream.
pub open spec fn is_round_step(stop: bool, event: RoundEvent, r: RoundStep) -> bool {
    match event {
        RoundEvent::InternalFailed(m) => r == RoundStep {
            action: RoundAction::Exit(BabyProverError::Internal(m)),
            heartbeat: None,
        },
        RoundEvent::ProofCreated { block, self_verified } => if !self_verified {
            &&& r.heartbeat is None
            &&& r.action matches RoundAction::Exit(BabyProverError::Internal(m)) && m@
                == unverified_proof_text()
        } else if stop {
            r == RoundStep { action: RoundAction::Exit(BabyProverError::Stop), heartbeat: None }
        } else {
            r == RoundStep { action: RoundAction::Publish { block }, heartbeat: None }
        },
        RoundEvent::JobFetched(job) => {
            let id: i32 = match job {
                Some((_, j)) => j,
                None => 0,
            };
            let action = if stop {
                RoundAction::Exit(BabyProverError::Stop)
            } else {
                match job {
                    Some((b, j)) => if j != 0 {
                        RoundAction::FetchData { block: b }
                    } else {
                        RoundAction::Pause
                    },
                    None => RoundAction::Pause,
                }
            };
            r == RoundStep { action, heartbeat: Some(id) }
        },
        _ => {
            let action = if stop {
                RoundAction::Exit(BabyProverError::Stop)
            } else {
                match event {
                    RoundEvent::RoundStart => RoundAction::FetchJob,
                    RoundEvent::DataFetched { block } => RoundAction::Prove { block },
                    _ => RoundAction::Pause,
                }
            };
            r == RoundStep { action, heartbeat: None }
        },
    }
}

/// Decides the worker's next step after `event`.
pub fn next_round_step(stop: bool, event: RoundEvent) -> (r: RoundStep)
    ensures
        is_round_step(stop, event, r),
{
    match event {
        RoundEvent::InternalFailed(m) => RoundStep {
            action: RoundAction::Exit(BabyProverError::Internal(m)),
            heartbeat: None,
        },
        RoundEvent::ProofCreated { block, self_verified } => {
            if !self_verified {
                proof {
                    reveal_strlit("created proof did not pass verification");
                }
                RoundStep {
                    action: RoundAction::Exit(
                        BabyProverError::Internal("created proof did not pass verification".to_owned()),
                    ),
                    heartbeat: None,
                }
            } else if stop {
                RoundStep { action: RoundAction::Exit(BabyProverError::Stop), heartbeat: None }
            } else {
                RoundStep { action: RoundAction::Publish { block }, heartbeat: None }
            }
        },
        RoundEvent::JobFetched(job) => {
            let id: i32 = match job {
                Some((_, j)) => j,
                None => 0,
            };
            let action = if stop {
                RoundAction::Exit(BabyProverError::Stop)
            } else {
                match job {
                    Some((b, j)) => if j != 0 {
                        RoundAction::FetchData { block: b }
                    } else {
                        RoundAction::Pause
                    },
                    None => RoundAction::Pause,
                }
            };
            RoundStep { action, heartbeat: Some(id) }
        },
        RoundEvent::RoundStart => {
            let action = if stop {
                RoundAction::Exit(BabyProverError::Stop)
            } else {
                RoundAction::FetchJob
            };
            RoundStep { action, heartbeat: None }
        },
        RoundEvent::DataFetched { block } => {
            let action = if stop {
                RoundAction::Exit(BabyProverError::Stop)
            } else {
                RoundAction::Prove { block }
            };
            RoundStep { action, heartbeat: None }
        },
        RoundEvent::Published => {
            let action = if stop {
                RoundAction::Exit(BabyProverError::Stop)
            } else {
                RoundAction::Pause
            };
            RoundStep { action, heartbeat: None }
        },
        RoundEvent::ApiFailed(_) => {
            let action = if stop {
                RoundAction::Exit(BabyProverError::Stop)
            } else {
                RoundAction::Pause
            };
            RoundStep { action, heartbeat: None }
        },
    }
}

/// What the heartbeat stream does on one tick.
#[derive(PartialEq, Eq, Structural, Clone, Copy, Debug)]
pub enum HeartbeatAction {
    /// Leave the heartbeat loop.
    Quit,
    /// No job in hand: send nothing.
    Idle,
    /// Report work on this job id to the registry.
    WorkingOn(i32),
}

/// One heartbeat tick. `job_id` is the job in hand (0 for none); `message`
/// is the latest `(job_id, quit)` signal from the rounds stream, if one
/// arrived. A quit signal or the stop flag ends the stream; otherwise the
/// signalled job replaces the one in hand and is reported when it is not 0.
pub fn heartbeat_tick(job_id: &mut i32, message: Option<(i32, bool)>, stop: bool) -> (r: HeartbeatAction)
    ensures
        (stop || message matches Some((_, true))) ==> r == HeartbeatAction::Quit && *final(job_id)
            == *old(job_id),
        !(stop || message matches Some((_, true))) ==> {
            let next = match message {
                Some((j, _)) => j,
                None => *old(job_id),
            };
            &&& *final(job_id) == next
            &&& r == if next != 0 {
                HeartbeatAction::WorkingOn(next)
            } else {
                HeartbeatAction::Idle
            }
        },
{
    if stop {
        return HeartbeatAction::Quit;
    }
    match message {
        Some((_, true)) => HeartbeatAction::Quit,
        Some((j, false)) => {
            *job_id = j;
            if j != 0 {
                HeartbeatAction::WorkingOn(j)
            } else {
                HeartbeatAction::Idle
            }
        },
        None => {
            if *job_id != 0 {
                HeartbeatAction::WorkingOn(*job_id)
            } else {
                HeartbeatAction::Idle
            }
        },
    }
}

} // verus!
