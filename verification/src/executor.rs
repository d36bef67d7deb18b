//! The plan executor's decision logic. The surrounding tool performs the
//! actual filesystem work; everything it decides — whether an entry is
//! reported, moved, or skipped as a collision, and how the run's counts and
//! exit status add up — lives here. One bad file never aborts the batch:
//! only an outcome marked fatal stops the run early.
use vstd::prelude::*;
use crate::planner::PlanEntry;

verus! {

/// What to do with one plan entry.
#[derive(Clone, Copy, PartialEq, Eq, Structural, Debug)]
pub enum MoveDecision {
    /// Dry run: print `source -> destination`, touch nothing.
    Report,
    /// Create the missing directories and move the file.
    DoMove,
    /// The destination exists with different content: skip this entry.
    SkipCollision,
}

/// The decision for one entry, given what the filesystem shows about its
/// destination.
pub open spec fn spec_decide(dry_run: bool, dest_exists: bool, same_content: bool) -> MoveDecision {
    if dry_run {
        MoveDecision::Report
    } else if dest_exists && !same_content {
        MoveDecision::SkipCollision
    } else {
        MoveDecision::DoMove
    }
}

/// Decides one entry: in a dry run every entry is only reported; otherwise a
/// destination that already exists with different content is a collision and
/// the entry is skipped; in every other case the move proceeds (moving onto
/// an identical existing file overwrites identical bytes).
pub fn decide(dry_run: bool, dest_exists: bool, same_content: bool) -> (d: MoveDecision)
    ensures
        d == spec_decide(dry_run, dest_exists, same_content),
{
    if dry_run {
        MoveDecision::Report
    } else if dest_exists && !same_content {
        MoveDecision::SkipCollision
    } else {
        MoveDecision::DoMove
    }
}

/// Dry-run purity: whatever the filesystem shows, a dry run decides only to
/// report. No entry is ever moved, so the source tree stays untouched.
pub proof fn lemma_dry_run_pure(dest_exists: bool, same_content: bool)
    ensures
        spec_decide(true, dest_exists, same_content) == MoveDecision::Report,
{
}

/// How performing one entry went.
#[derive(Clone, Copy, PartialEq, Eq, Structural, Debug)]
pub enum MoveOutcome {
    /// Dry run: the entry was printed.
    Reported,
    /// The file was moved.
    Moved,
    /// Skipped: the destination existed with different content.
    Collision,
    /// A per-file I/O failure; the run continues.
    IoError,
    /// The destination root itself is unusable; the run stops.
    Fatal,
}

/// Walks the plan one entry at a time, counting outcomes. Recording any
/// non-fatal outcome advances to the next entry; only a fatal outcome ends
/// the run early.
pub struct Executor {
    pub entries: Vec<PlanEntry>,
    pub idx: usize,
    pub reported: usize,
    pub moved: usize,
    pub collisions: usize,
    pub io_errors: usize,
    pub fatal: bool,
}

impl Executor {
    /// Every processed entry is counted exactly once.
    pub open spec fn wf(self) -> bool {
        self.idx <= self.entries@.len() && self.reported + self.moved + self.collisions
            + self.io_errors == self.idx
    }

    /// The run is over: every entry was processed, or a fatal error struck.
    pub open spec fn done(self) -> bool {
        self.fatal || self.idx >= self.entries@.len()
    }

    pub fn new(entries: Vec<PlanEntry>) -> (e: Self)
        ensures
            e.wf(),
            e.entries@ == entries@,
            e.idx == 0,
            e.reported == 0,
            e.moved == 0,
            e.collisions == 0,
            e.io_errors == 0,
            !e.fatal,
    {
        Executor {
            entries,
            idx: 0,
            reported: 0,
            moved: 0,
            collisions: 0,
            io_errors: 0,
            fatal: false,
        }
    }

    pub fn finished(&self) -> (b: bool)
        ensures
            b == self.done(),
    {
        self.fatal || self.idx >= self.entries.len()
    }

    /// The entry to perform next.
    pub fn current(&self) -> (e: &PlanEntry)
        requires
            !self.done(),
        ensures
            *e == self.entries@[self.idx as int],
    {
        &self.entries[self.idx]
    }

    /// Records how the current entry went and advances past it. A collision
    /// or a per-file I/O error leaves the run running; only a fatal outcome
    /// sets the stop flag.
    pub fn record(&mut self, outcome: MoveOutcome)
        requires
            old(self).wf(),
            !old(self).done(),
        ensures
            final(self).wf(),
            final(self).entries@ == old(self).entries@,
            final(self).idx == old(self).idx + 1,
            final(self).fatal == (outcome == MoveOutcome::Fatal),
            final(self).reported == old(self).reported + (if outcome == MoveOutcome::Reported {
                1int
            } else {
                0int
            }),
            final(self).moved == old(self).moved + (if outcome == MoveOutcome::Moved {
                1int
            } else {
                0int
            }),
            final(self).collisions == old(self).collisions + (if outcome
                == MoveOutcome::Collision {
                1int
            } else {
                0int
            }),
            final(self).io_errors == old(self).io_errors + (if outcome == MoveOutcome::IoError
                || outcome == MoveOutcome::Fatal {
                1int
            } else {
                0int
            }),
    {
        let n = self.entries.len();
        proof {
            assert(self.idx < n);
        }
        match outcome {
            MoveOutcome::Reported => {
                self.reported = self.reported + 1;
            },
            MoveOutcome::Moved => {
                self.moved = self.moved + 1;
            },
            MoveOutcome::Collision => {
                self.collisions = self.collisions + 1;
            },
            MoveOutcome::IoError => {
                self.io_errors = self.io_errors + 1;
            },
            MoveOutcome::Fatal => {
                self.io_errors = self.io_errors + 1;
                self.fatal = true;
            },
        }
        self.idx = self.idx + 1;
    }
}

/// The counts a run ends with.
#[derive(Clone, Copy, PartialEq, Eq, Structural, Debug)]
pub struct RunReport {
    pub planned: usize,
    pub reported: usize,
    pub moved: usize,
    pub collisions: usize,
    pub io_errors: usize,
    pub skipped_limit: usize,
    pub failed_extract: usize,
    pub fatal: bool,
}

/// Sums a finished (or fatally stopped) run up.
pub fn report(exec: &Executor, skipped_limit: usize, failed_extract: usize) -> (r: RunReport)
    ensures
        r.planned == exec.entries@.len(),
        r.reported == exec.reported,
        r.moved == exec.moved,
        r.collisions == exec.collisions,
        r.io_errors == exec.io_errors,
        r.skipped_limit == skipped_limit,
        r.failed_extract == failed_extract,
        r.fatal == exec.fatal,
{
    RunReport {
        planned: exec.entries.len(),
        reported: exec.reported,
        moved: exec.moved,
        collisions: exec.collisions,
        io_errors: exec.io_errors,
        skipped_limit,
        failed_extract,
        fatal: exec.fatal,
    }
}

/// The process status: nonzero exactly when a fatal error struck. Per-file
/// failures (collisions, unreadable files, per-file I/O errors) leave the
/// status zero; they are visible in the report's counts instead.
pub fn exit_code(r: &RunReport) -> (c: i32)
    ensures
        c == (if r.fatal {
            1int
        } else {
            0int
        }),
        (c == 0) <==> !r.fatal,
{
    if r.fatal {
        1
    } else {
        0
    }
}

} // verus!
