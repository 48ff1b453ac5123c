use vstd::prelude::*;

verus! {

/// Age after which cached transcriptions and translations are stale, in days.
pub const ENTRY_MAX_AGE_DAYS: i64 = 30;

/// Age after which a cached project snapshot is stale, in minutes.
pub const SNAPSHOT_MAX_AGE_MINUTES: i64 = 60;

pub const SECONDS_PER_DAY: i64 = 86400;

pub const SECONDS_PER_MINUTE: i64 = 60;

/// A maximum age, counted in whole units of `unit_secs` seconds.
#[derive(Clone, Copy, Debug, PartialEq, Eq)]
pub struct ExpiryPolicy {
    pub unit_secs: i64,
    pub max_units: i64,
}

impl ExpiryPolicy {
    pub open spec fn wf(self) -> bool {
        self.unit_secs > 0 && self.max_units >= 0
    }

    pub open spec fn entries_spec() -> ExpiryPolicy {
        ExpiryPolicy { unit_secs: SECONDS_PER_DAY, max_units: ENTRY_MAX_AGE_DAYS }
    }

    pub open spec fn snapshots_spec() -> ExpiryPolicy {
        ExpiryPolicy { unit_secs: SECONDS_PER_MINUTE, max_units: SNAPSHOT_MAX_AGE_MINUTES }
    }

    /// The policy of transcription and translation entries.
    pub fn entries() -> (r: ExpiryPolicy)
        ensures
            r.wf(),
            r == ExpiryPolicy::entries_spec(),
    {
        ExpiryPolicy { unit_secs: SECONDS_PER_DAY, max_units: ENTRY_MAX_AGE_DAYS }
    }

    /// The policy of project snapshots.
    pub fn snapshots() -> (r: ExpiryPolicy)
        ensures
            r.wf(),
            r == ExpiryPolicy::snapshots_spec(),
    {
        ExpiryPolicy { unit_secs: SECONDS_PER_MINUTE, max_units: SNAPSHOT_MAX_AGE_MINUTES }
    }
}

/// The longest age, in seconds, at which an entry is still served.
pub open spec fn max_age(policy: ExpiryPolicy) -> int {
    policy.max_units * policy.unit_secs
}

/// An entry created at `created` (seconds since the epoch) is stale at `now` when
/// it is older than the policy's maximum age. A creation time in the future
/// leaves the entry fresh.
pub open spec fn is_stale(created: int, now: int, policy: ExpiryPolicy) -> bool {
    now - created > max_age(policy)
}

/// Decides whether an entry created at `created` has expired at `now`.
pub fn is_expired(created: i64, now: i64, policy: ExpiryPolicy) -> (r: bool)
    requires
        policy.wf(),
    ensures
        r == is_stale(created as int, now as int, policy),
{
    let elapsed: i128 = now as i128 - created as i128;
    let m: i128 = policy.max_units as i128;
    let u: i128 = policy.unit_secs as i128;
    proof {
        assert(0 <= m * u <= 0x8000_0000_0000_0000 * 0x8000_0000_0000_0000) by (nonlinear_arith)
            requires
                0 <= m < 0x8000_0000_0000_0000,
                0 < u < 0x8000_0000_0000_0000,
        ;
    }
    let limit: i128 = m * u;
    elapsed > limit
}

} // verus!
