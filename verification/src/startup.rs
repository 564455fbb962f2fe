//! What is to be set going when the process starts, as the configuration says.

use crate::config::Config;
use vstd::prelude::*;
use vstd::string::*;

verus! {

/// How long after the start the first check for updates is made, in seconds.
pub const UPDATE_CHECK_DELAY_SECONDS: u64 = 5;

/// What is to be set going at the start.
pub struct StartupPlan {
    /// The path of the metrics store to open, where the store is switched on.
    pub metrics_db_path: Option<String>,
    /// Whether to check for updates once the process runs.
    pub check_for_updates: bool,
}

/// The configuration switches the metrics store on.
pub open spec fn wants_metrics_db(config: Config) -> bool {
    config.metrics_storage is Some && config.metrics_storage->0.enabled
}

/// The configuration asks for a check for updates at the start.
pub open spec fn wants_update_check(config: Config) -> bool {
    config.update is Some && config.update->0.auto_check
}

/// Reads off the configuration what the start has to set going: the metrics
/// store where it is switched on, and a check for updates where the
/// configuration asks for one at the start.
pub fn plan_startup(config: &Config) -> (plan: StartupPlan)
    ensures
        plan.metrics_db_path is Some == wants_metrics_db(*config),
        plan.metrics_db_path matches Some(p) ==> p@ == config.metrics_storage->0.db_path@,
        plan.check_for_updates == wants_update_check(*config),
{
    let metrics_db_path = match &config.metrics_storage {
        Some(m) => if m.enabled {
            Some(m.db_path.clone())
        } else {
            None
        },
        None => None,
    };
    let check_for_updates = match &config.update {
        Some(u) => u.auto_check,
        None => false,
    };
    StartupPlan { metrics_db_path, check_for_updates }
}

} // verus!
