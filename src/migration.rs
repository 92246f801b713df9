//! Counts kept while importing records from an earlier store.
use vstd::prelude::*;

verus! {

/// How many records of each kind an import brought over.
#[derive(Debug, Clone, Copy, PartialEq, Eq, Structural)]
pub struct MigrationStats {
    pub workspaces_migrated: usize,
    pub worktrees_migrated: usize,
    pub agents_migrated: usize,
    pub messages_migrated: usize,
    pub sessions_migrated: usize,
    pub usage_stats_migrated: usize,
}

/// The sum of all counts.
pub open spec fn stats_total(s: MigrationStats) -> int {
    s.workspaces_migrated + s.worktrees_migrated + s.agents_migrated + s.messages_migrated
        + s.sessions_migrated + s.usage_stats_migrated
}

impl MigrationStats {
    /// All counts at zero.
    pub fn new() -> (r: MigrationStats)
        ensures
            stats_total(r) == 0,
    {
        MigrationStats {
            workspaces_migrated: 0,
            worktrees_migrated: 0,
            agents_migrated: 0,
            messages_migrated: 0,
            sessions_migrated: 0,
            usage_stats_migrated: 0,
        }
    }

    /// How many records were brought over in all.
    pub fn total(&self) -> (r: usize)
        requires
            stats_total(*self) <= usize::MAX,
        ensures
            r == stats_total(*self),
    {
        self.workspaces_migrated + self.worktrees_migrated + self.agents_migrated
            + self.messages_migrated + self.sessions_migrated + self.usage_stats_migrated
    }
}

} // verus!
