use vstd::prelude::*;

use crate::domain::engine::{derisk_plan, should_derisk, DeriskAction, HealthStatus, VaultConfig};
use crate::domain::score::{Score, ONE_PATTERN, ZERO_PATTERN};

verus! {

/// How the sentinel monitors the adapters.
#[derive(Clone, Debug)]
pub struct SentinelConfig {
    pub poll_interval_secs: u64,
    pub auto_derisk_enabled: bool,
}

impl Default for SentinelConfig {
    fn default() -> (c: Self)
        ensures
            c.poll_interval_secs == 60,
            c.auto_derisk_enabled,
    {
        SentinelConfig { poll_interval_secs: 60, auto_derisk_enabled: true }
    }
}

/// What the sentinel has seen so far.
#[derive(Clone, Debug)]
pub struct SentinelStatus {
    pub running: bool,
    /// When the last check ran, as RFC 3339 text.
    pub last_check: Option<String>,
    pub checks_completed: u64,
    pub last_health: Vec<HealthStatus>,
    pub last_action: Option<DeriskAction>,
}

impl Default for SentinelStatus {
    fn default() -> (s: Self)
        ensures
            !s.running,
            s.last_check is None,
            s.checks_completed == 0,
            s.last_health@.len() == 0,
            s.last_action is None,
    {
        SentinelStatus {
            running: false,
            last_check: None,
            checks_completed: 0,
            last_health: Vec::new(),
            last_action: None,
        }
    }
}

/// The report that stands for an adapter whose health check failed: zero
/// score, stale oracle, no liquidity, fully used, and the error as details.
pub fn failed_health(adapter_name: &str, error: &str) -> (h: HealthStatus)
    ensures
        h.adapter_name@ == adapter_name@,
        h.score.bits == ZERO_PATTERN,
        !h.oracle_fresh,
        !h.liquidity_adequate,
        h.utilisation_rate.bits == ONE_PATTERN,
        h.details@ == "health check error: "@ + error@,
{
    let mut details = String::from_str("health check error: ");
    details.append(error);
    HealthStatus {
        adapter_name: String::from_str(adapter_name),
        score: Score::from_bits(ZERO_PATTERN),
        oracle_fresh: false,
        liquidity_adequate: false,
        utilisation_rate: Score::from_bits(ONE_PATTERN),
        details,
    }
}

/// Records one completed health check made at time `now` (RFC 3339 text): decides what to do
/// about the reports, and stores the time, the reports and the decision,
/// counting the check.
pub fn record_check(
    status: &mut SentinelStatus,
    vault_config: &VaultConfig,
    results: Vec<HealthStatus>,
    now: String,
)
    requires
        old(status).checks_completed < u64::MAX,
    ensures
        final(status).running == old(status).running,
        final(status).last_check == Some(now),
        final(status).checks_completed == old(status).checks_completed + 1,
        final(status).last_health == results,
        final(status).last_action matches Some(a) && a@ == derisk_plan(
            vault_config.auto_derisk_enabled,
            vault_config.derisking_health_threshold,
            results@,
        ),
{
    let action = should_derisk(vault_config, results.as_slice());
    status.last_check = Some(now);
    status.checks_completed = status.checks_completed + 1;
    status.last_health = results;
    status.last_action = Some(action);
}

} // verus!
