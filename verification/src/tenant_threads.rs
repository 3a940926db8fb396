//! The decisions of the per-tenant background loops. Each loop is a
//! step-wait cycle: these functions take the observed tenant state and the
//! tenant's tuning and say what the loop does next; the loop around them
//! sleeps and calls the repository.

use vstd::prelude::*;

verus! {

/// The lifecycle state of a tenant as its manager reports it.
#[derive(Clone, Copy, Debug, PartialEq, Eq, Structural)]
pub enum TenantState {
    Active,
    Idle,
    Stopping,
    Broken,
}

/// A tenant's tuning: how far WAL may accumulate before a checkpoint, how
/// often to checkpoint, how far garbage collection keeps history, and how
/// often it runs.
#[derive(Clone, Copy, Debug, PartialEq, Eq, Structural)]
pub struct TenantConf {
    pub checkpoint_distance: u64,
    pub checkpoint_period_sec: u64,
    pub gc_horizon: u64,
    pub gc_period_sec: u64,
    pub pitr_interval_sec: u64,
}

/// What the checkpoint loop does next.
#[derive(Clone, Copy, Debug, PartialEq, Eq, Structural)]
pub enum CheckpointStep {
    /// The tenant is gone or no longer active: the loop ends.
    Exit,
    /// Sleep for the period, then checkpoint every timeline that accumulated
    /// more than `distance` bytes of WAL.
    Run { sleep_sec: u64, distance: u64 },
}

/// What the garbage-collection loop does next.
#[derive(Clone, Copy, Debug, PartialEq, Eq, Structural)]
pub enum GcStep {
    /// The tenant is gone or no longer active: the loop ends.
    Exit,
    /// Collect files no point-in-time read inside the horizon needs, then
    /// sleep.
    Run { horizon: u64, pitr_interval_sec: u64, sleep_sec: u64 },
    /// A zero horizon turns collection off for this tenant: only sleep.
    Sleep { sleep_sec: u64 },
}

/// One second of the garbage-collection loop's sleep, polled so the loop can
/// stop quickly when the tenant does.
#[derive(Clone, Copy, Debug, PartialEq, Eq, Structural)]
pub enum SleepTick {
    /// Sleep one more second, then ask again.
    Tick { remaining_sec: u64 },
    /// The wait is over, or the tenant stopped being active.
    Done,
}

/// Decide one round of the checkpoint loop: only an active tenant is
/// checkpointed, with its configured period and distance.
pub fn checkpoint_loop_step(state: Option<TenantState>, conf: &TenantConf) -> (r: CheckpointStep)
    ensures
        r == if state == Some(TenantState::Active) {
            CheckpointStep::Run {
                sleep_sec: conf.checkpoint_period_sec,
                distance: conf.checkpoint_distance,
            }
        } else {
            CheckpointStep::Exit
        },
{
    if state == Some(TenantState::Active) {
        CheckpointStep::Run {
            sleep_sec: conf.checkpoint_period_sec,
            distance: conf.checkpoint_distance,
        }
    } else {
        CheckpointStep::Exit
    }
}

/// Decide one round of the garbage-collection loop: only an active tenant is
/// collected, only with a positive horizon, and the loop always sleeps its
/// period afterwards.
pub fn gc_loop_step(state: Option<TenantState>, conf: &TenantConf) -> (r: GcStep)
    ensures
        r == if state != Some(TenantState::Active) {
            GcStep::Exit
        } else if conf.gc_horizon > 0 {
            GcStep::Run {
                horizon: conf.gc_horizon,
                pitr_interval_sec: conf.pitr_interval_sec,
                sleep_sec: conf.gc_period_sec,
            }
        } else {
            GcStep::Sleep { sleep_sec: conf.gc_period_sec }
        },
{
    if state != Some(TenantState::Active) {
        GcStep::Exit
    } else if conf.gc_horizon > 0 {
        GcStep::Run {
            horizon: conf.gc_horizon,
            pitr_interval_sec: conf.pitr_interval_sec,
            sleep_sec: conf.gc_period_sec,
        }
    } else {
        GcStep::Sleep { sleep_sec: conf.gc_period_sec }
    }
}

/// Decide one tick of the garbage-collection loop's polled sleep: keep
/// sleeping second by second while time remains and the tenant stays active.
pub fn gc_sleep_tick(state: Option<TenantState>, remaining_sec: u64) -> (r: SleepTick)
    ensures
        r == if remaining_sec > 0 && state == Some(TenantState::Active) {
            SleepTick::Tick { remaining_sec: (remaining_sec - 1) as u64 }
        } else {
            SleepTick::Done
        },
{
    if remaining_sec > 0 && state == Some(TenantState::Active) {
        SleepTick::Tick { remaining_sec: remaining_sec - 1 }
    } else {
        SleepTick::Done
    }
}

} // verus!
