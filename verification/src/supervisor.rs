//! The supervisor's decisions: ownership of the watermark and the restart
//! policy of the poll loop.
//!
//! The loop around this module performs the process work: it snapshots the
//! watched subtree, scans it, hands the changed files to [`Supervisor::cycle`],
//! and on [`CycleAction::Restart`] kills the running child process and spawns
//! a fresh one before sleeping until the next cycle.

use vstd::prelude::*;
use crate::scanner::lemma_detection_complete;
use crate::tree::ChangedFile;
use crate::tree::FsNode;
use crate::tree::all_files;
use crate::tree::changed_files;
use crate::tree::stamps;

verus! {

/// What the loop must do with the child process after a poll cycle.
#[derive(Clone, Copy, Debug, PartialEq, Eq, Structural)]
pub enum CycleAction {
    /// Kill the running child once and spawn a fresh one once.
    Restart,
    /// Leave the running child alone.
    Keep,
}

/// The watermark after one poll cycle: the old watermark raised to the
/// latest modification time among the cycle's changed files, and left
/// as it was where the cycle changed nothing.
pub open spec fn next_watermark(watermark: u64, changed: Seq<(Seq<char>, u64)>) -> u64
    decreases changed.len(),
{
    if changed.len() == 0 {
        watermark
    } else {
        let m = next_watermark(watermark, changed.drop_last());
        if changed.last().1 > m {
            changed.last().1
        } else {
            m
        }
    }
}

/// The watermark after a whole sequence of poll cycles, each given as the
/// stamps of the files it reported changed.
pub open spec fn watermark_after(initial: u64, cycles: Seq<Seq<(Seq<char>, u64)>>) -> u64
    decreases cycles.len(),
{
    if cycles.len() == 0 {
        initial
    } else {
        next_watermark(watermark_after(initial, cycles.drop_last()), cycles.last())
    }
}

/// The supervisor's loop state: the latest modification time already
/// accounted for. It is owned by the poll loop alone and never moves
/// backwards.
pub struct Supervisor {
    pub watermark: u64,
}

impl Supervisor {
    /// Begin supervising with the startup watermark.
    pub fn new(initial_watermark: u64) -> (s: Supervisor)
        ensures
            s.watermark == initial_watermark,
    {
        Supervisor { watermark: initial_watermark }
    }

    /// Decide one poll cycle from the files the scan reported changed.
    ///
    /// The watermark ends the cycle at the latest modification time seen,
    /// never lower than before, and the child is restarted exactly when at
    /// least one file changed: one restart per cycle, however many files
    /// changed, and none on a cycle that changed nothing.
    #[verifier::loop_isolation(false)]
    pub fn cycle(&mut self, changed: &Vec<ChangedFile>) -> (action: CycleAction)
        ensures
            final(self).watermark == next_watermark(old(self).watermark, stamps(changed@)),
            old(self).watermark <= final(self).watermark,
            action == CycleAction::Restart <==> changed@.len() > 0,
            changed@.len() == 0 ==> final(self).watermark == old(self).watermark,
    {
        let n: usize = changed.len();
        for i in 0..n
            invariant
                self.watermark == next_watermark(
                    old(self).watermark,
                    stamps(changed@).take(i as int),
                ),
            decreases n - i,
        {
            proof {
                assert(stamps(changed@).take(i + 1).drop_last() =~= stamps(changed@).take(
                    i as int,
                ));
                assert(stamps(changed@).take(i + 1).last() == changed@[i as int]@);
            }
            if changed[i].mtime > self.watermark {
                self.watermark = changed[i].mtime;
            }
        }
        proof {
            assert(stamps(changed@).take(n as int) =~= stamps(changed@));
            lemma_next_watermark_monotonic(old(self).watermark, stamps(changed@));
        }
        if n > 0 {
            CycleAction::Restart
        } else {
            CycleAction::Keep
        }
    }
}

/// One cycle never lowers the watermark.
pub proof fn lemma_next_watermark_monotonic(watermark: u64, changed: Seq<(Seq<char>, u64)>)
    ensures
        watermark <= next_watermark(watermark, changed),
    decreases changed.len(),
{
    if changed.len() > 0 {
        lemma_next_watermark_monotonic(watermark, changed.drop_last());
    }
}

/// After a cycle the watermark bounds every changed file's modification
/// time, and is the old watermark or the modification time of one of the
/// changed files.
pub proof fn lemma_next_watermark_bounds(watermark: u64, changed: Seq<(Seq<char>, u64)>)
    ensures
        forall|i: int|
            0 <= i < changed.len() ==> changed[i].1 <= next_watermark(watermark, changed),
        next_watermark(watermark, changed) == watermark || exists|i: int|
            0 <= i < changed.len() && changed[i].1 == next_watermark(watermark, changed),
    decreases changed.len(),
{
    if changed.len() > 0 {
        lemma_next_watermark_bounds(watermark, changed.drop_last());
        assert forall|i: int|
            0 <= i < changed.len() implies changed[i].1 <= next_watermark(watermark, changed) by {
            if i < changed.len() - 1 {
                assert(changed.drop_last()[i] == changed[i]);
            }
        }
        let m = next_watermark(watermark, changed);
        if m != watermark {
            if changed.last().1 > next_watermark(watermark, changed.drop_last()) {
                assert(changed[changed.len() - 1].1 == m);
            } else {
                let j = choose|j: int|
                    0 <= j < changed.drop_last().len() && changed.drop_last()[j].1
                        == next_watermark(watermark, changed.drop_last());
                assert(changed[j].1 == m);
            }
        }
    }
}

/// Watermark monotonicity: over any sequence of poll cycles, the watermark
/// after a cycle is at least the watermark after the cycle before it.
pub proof fn lemma_watermark_monotonic(
    initial: u64,
    cycles: Seq<Seq<(Seq<char>, u64)>>,
    next_cycle: Seq<(Seq<char>, u64)>,
)
    ensures
        watermark_after(initial, cycles) <= watermark_after(initial, cycles.push(next_cycle)),
{
    assert(cycles.push(next_cycle).drop_last() =~= cycles);
    assert(cycles.push(next_cycle).last() == next_cycle);
    lemma_next_watermark_monotonic(watermark_after(initial, cycles), next_cycle);
}

/// Idempotence on no change: once a cycle has advanced the watermark past
/// everything it reported, scanning the same snapshot again reports no
/// changed files — so the cycle that follows keeps the child running.
pub proof fn lemma_rescan_after_cycle_empty(n: FsNode, watermark: u64)
    ensures
        changed_files(n, next_watermark(watermark, changed_files(n, watermark))).len() == 0,
{
    let cs = changed_files(n, watermark);
    let raised = next_watermark(watermark, cs);
    lemma_next_watermark_monotonic(watermark, cs);
    lemma_next_watermark_bounds(watermark, cs);
    lemma_detection_complete(n, watermark);
    lemma_detection_complete(n, raised);
    if changed_files(n, raised).len() > 0 {
        let f = changed_files(n, raised)[0];
        assert(changed_files(n, raised).contains(f));
        assert(all_files(n).contains(f) && f.1 > raised);
        assert(cs.contains(f));
        let i = choose|i: int| 0 <= i < cs.len() && cs[i] == f;
        assert(cs[i].1 <= raised);
    }
}

} // verus!
