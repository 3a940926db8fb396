//! Request bodies consumed by the management layer. The transport and its
//! serialization live outside the core; these are the plain values.

use vstd::prelude::*;

use crate::relish::ZTenantId;

verus! {

/// Request to create a new branch of an existing timeline.
pub struct BranchCreateRequest {
    pub tenant_id: ZTenantId,
    pub name: String,
    pub start_point: String,
}

/// Request to create a tenant. The duration fields are human-readable strings
/// parsed by the configuration layer.
pub struct TenantCreateRequest {
    pub tenant_id: ZTenantId,
    pub checkpoint_distance: Option<u64>,
    pub checkpoint_period: Option<String>,
    pub gc_horizon: Option<u64>,
    pub gc_period: Option<String>,
    pub pitr_interval: Option<String>,
}

impl TenantCreateRequest {
    /// A request for `tenant_id` with every tuning knob left at its default.
    pub fn new(tenant_id: ZTenantId) -> (r: TenantCreateRequest)
        ensures
            r.tenant_id == tenant_id,
            r.checkpoint_distance is None,
            r.checkpoint_period is None,
            r.gc_horizon is None,
            r.gc_period is None,
            r.pitr_interval is None,
    {
        TenantCreateRequest {
            tenant_id,
            checkpoint_distance: None,
            checkpoint_period: None,
            gc_horizon: None,
            gc_period: None,
            pitr_interval: None,
        }
    }
}

} // verus!
