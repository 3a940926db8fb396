use pageserver::models::BranchCreateRequest;
use pageserver::models::TenantCreateRequest;
use pageserver::relish::ZTenantId;
use pageserver::tenant_threads::checkpoint_loop_step;
use pageserver::tenant_threads::gc_loop_step;
use pageserver::tenant_threads::gc_sleep_tick;
use pageserver::tenant_threads::CheckpointStep;
use pageserver::tenant_threads::GcStep;
use pageserver::tenant_threads::SleepTick;
use pageserver::tenant_threads::TenantConf;
use pageserver::tenant_threads::TenantState;

fn conf() -> TenantConf {
    TenantConf {
        checkpoint_distance: 256 * 1024 * 1024,
        checkpoint_period_sec: 1,
        gc_horizon: 67108864,
        gc_period_sec: 100,
        pitr_interval_sec: 2592000,
    }
}

#[test]
fn checkpoint_loop_runs_only_while_active() {
    let c = conf();
    assert_eq!(
        checkpoint_loop_step(Some(TenantState::Active), &c),
        CheckpointStep::Run { sleep_sec: 1, distance: 256 * 1024 * 1024 }
    );
    assert_eq!(checkpoint_loop_step(Some(TenantState::Stopping), &c), CheckpointStep::Exit);
    assert_eq!(checkpoint_loop_step(Some(TenantState::Idle), &c), CheckpointStep::Exit);
    assert_eq!(checkpoint_loop_step(Some(TenantState::Broken), &c), CheckpointStep::Exit);
    assert_eq!(checkpoint_loop_step(None, &c), CheckpointStep::Exit);
}

#[test]
fn gc_loop_respects_horizon_and_state() {
    let c = conf();
    assert_eq!(
        gc_loop_step(Some(TenantState::Active), &c),
        GcStep::Run { horizon: 67108864, pitr_interval_sec: 2592000, sleep_sec: 100 }
    );
    let disabled = TenantConf { gc_horizon: 0, ..c };
    assert_eq!(
        gc_loop_step(Some(TenantState::Active), &disabled),
        GcStep::Sleep { sleep_sec: 100 }
    );
    assert_eq!(gc_loop_step(Some(TenantState::Stopping), &c), GcStep::Exit);
    assert_eq!(gc_loop_step(None, &c), GcStep::Exit);
}

#[test]
fn gc_sleep_polls_for_fast_shutdown() {
    assert_eq!(
        gc_sleep_tick(Some(TenantState::Active), 100),
        SleepTick::Tick { remaining_sec: 99 }
    );
    assert_eq!(gc_sleep_tick(Some(TenantState::Active), 0), SleepTick::Done);
    assert_eq!(gc_sleep_tick(Some(TenantState::Stopping), 50), SleepTick::Done);
    assert_eq!(gc_sleep_tick(None, 50), SleepTick::Done);
}

#[test]
fn branch_create_request_carries_its_fields() {
    let req = BranchCreateRequest {
        tenant_id: ZTenantId { hi: 1, lo: 2 },
        name: String::from("experiment"),
        start_point: String::from("main@0/16B59A8"),
    };
    assert_eq!(req.tenant_id, ZTenantId { hi: 1, lo: 2 });
    assert_eq!(req.name, "experiment");
    assert_eq!(req.start_point, "main@0/16B59A8");
}

#[test]
fn tenant_create_request_defaults() {
    let id = ZTenantId { hi: 0xdead, lo: 0xbeef };
    let req = TenantCreateRequest::new(id);
    assert_eq!(req.tenant_id, id);
    assert!(req.checkpoint_distance.is_none());
    assert!(req.checkpoint_period.is_none());
    assert!(req.gc_horizon.is_none());
    assert!(req.gc_period.is_none());
    assert!(req.pitr_interval.is_none());
}
