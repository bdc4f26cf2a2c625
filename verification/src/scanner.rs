//! The scanner: classify the regular files of a snapshot against a
//! watermark, and compute the startup watermark from a one-level listing.

use vstd::prelude::*;
use crate::tree::ChangedFile;
use crate::tree::FsNode;
use crate::tree::all_files;
use crate::tree::changed_files;
use crate::tree::changed_in;
use crate::tree::changed_pred;
use crate::tree::entry_files;
use crate::tree::file_count;
use crate::tree::is_changed;
use crate::tree::lemma_changed_in_add;
use crate::tree::lemma_changed_in_empty;
use crate::tree::lemma_changed_in_singleton;
use crate::tree::stamps;

verus! {

/// What the reported total saturates to: the file count, capped at the
/// largest value the counter can hold.
pub open spec fn clamped_count(c: nat) -> nat {
    if c <= usize::MAX as nat {
        c
    } else {
        usize::MAX as nat
    }
}

/// Scan a snapshot of the watched subtree against a watermark.
///
/// Reports exactly the regular files whose modification time strictly
/// exceeds the watermark, in depth-first traversal order, together with
/// the total number of regular files in the snapshot (saturating at the
/// counter's maximum). The result is a function of the snapshot and the
/// watermark alone, so repeated scans of an unchanged tree agree.
#[verifier::loop_isolation(false)]
pub fn scan(node: &FsNode, watermark: u64) -> (r: (Vec<ChangedFile>, usize))
    ensures
        stamps(r.0@) == changed_files(*node, watermark),
        r.1 as nat == clamped_count(file_count(*node)),
    decreases *node,
{
    match node {
        FsNode::File { path, mtime } => {
            let mut changed: Vec<ChangedFile> = Vec::new();
            if *mtime > watermark {
                changed.push(ChangedFile { path: path.clone(), mtime: *mtime });
            }
            proof {
                lemma_changed_in_singleton((path@, *mtime), watermark);
                assert(stamps(changed@) =~= changed_files(*node, watermark));
            }
            (changed, 1)
        },
        FsNode::Dir { entries } => {
            let mut changed: Vec<ChangedFile> = Vec::new();
            let mut total: usize = 0;
            proof {
                lemma_changed_in_empty(watermark);
                assert(stamps(changed@) =~= changed_in(entry_files(entries@, 0), watermark));
            }
            let n: usize = entries.len();
            for i in 0..n
                invariant
                    n == entries@.len(),
                    stamps(changed@) == changed_in(entry_files(entries@, i as int), watermark),
                    total as nat == clamped_count(entry_files(entries@, i as int).len()),
                decreases n - i,
            {
                let ghost prefix: Seq<ChangedFile> = changed@;
                let (mut sub_changed, sub_total) = scan(&entries[i], watermark);
                let ghost sub_seq: Seq<ChangedFile> = sub_changed@;
                changed.append(&mut sub_changed);
                total = if total > usize::MAX - sub_total {
                    usize::MAX
                } else {
                    total + sub_total
                };
                proof {
                    let ghost a = entry_files(entries@, i as int);
                    let ghost b = all_files(entries@[i as int]);
                    assert(entry_files(entries@, i + 1) == a + b);
                    lemma_changed_in_add(a, b, watermark);
                    assert(stamps(prefix + sub_seq) =~= stamps(prefix) + stamps(sub_seq));
                    assert((a + b).len() == a.len() + b.len());
                }
            }
            proof {
                assert(all_files(*node) == entry_files(entries@, entries@.len() as int));
            }
            (changed, total)
        },
        FsNode::Skipped => {
            proof {
                lemma_changed_in_empty(watermark);
                assert(stamps(Seq::<ChangedFile>::empty()) =~= changed_files(
                    *node,
                    watermark,
                ));
            }
            (Vec::new(), 0)
        },
    }
}

/// The latest modification time among a sequence of modification times,
/// or the epoch (`0`) where there is none.
pub open spec fn max_time(s: Seq<u64>) -> u64
    decreases s.len(),
{
    if s.len() == 0 {
        0
    } else {
        let m = max_time(s.drop_last());
        if s.last() > m {
            s.last()
        } else {
            m
        }
    }
}

/// The startup watermark: the latest modification time among the immediate
/// entries of the watch root (files and directories alike), or the epoch
/// where the root has no readable entries.
#[verifier::loop_isolation(false)]
pub fn latest_modification_time(mtimes: &Vec<u64>) -> (r: u64)
    ensures
        r == max_time(mtimes@),
{
    let mut latest: u64 = 0;
    let n: usize = mtimes.len();
    for i in 0..n
        invariant
            latest == max_time(mtimes@.take(i as int)),
        decreases n - i,
    {
        proof {
            assert(mtimes@.take(i + 1).drop_last() =~= mtimes@.take(i as int));
            assert(mtimes@.take(i + 1).last() == mtimes@[i as int]);
        }
        if mtimes[i] > latest {
            latest = mtimes[i];
        }
    }
    proof {
        assert(mtimes@.take(n as int) =~= mtimes@);
    }
    latest
}

/// The maximum is an upper bound of every time in the sequence, and is
/// either the epoch or one of the times.
pub proof fn lemma_max_time_bounds(s: Seq<u64>)
    ensures
        forall|i: int| 0 <= i < s.len() ==> s[i] <= max_time(s),
        max_time(s) == 0 || exists|i: int| 0 <= i < s.len() && s[i] == max_time(s),
    decreases s.len(),
{
    if s.len() > 0 {
        lemma_max_time_bounds(s.drop_last());
        assert forall|i: int| 0 <= i < s.len() implies s[i] <= max_time(s) by {
            if i < s.len() - 1 {
                assert(s.drop_last()[i] == s[i]);
            }
        }
        if max_time(s) != 0 {
            if s.last() > max_time(s.drop_last()) {
                assert(s[s.len() - 1] == max_time(s));
            } else {
                let j = choose|j: int|
                    0 <= j < s.drop_last().len() && s.drop_last()[j] == max_time(s.drop_last());
                assert(s[j] == max_time(s));
            }
        }
    }
}

/// Detection completeness: a stamp is reported changed against a watermark
/// exactly when it is a regular file of the snapshot whose modification
/// time strictly exceeds the watermark.
pub proof fn lemma_detection_complete(n: FsNode, watermark: u64)
    ensures
        forall|f: (Seq<char>, u64)| #[trigger] changed_files(n, watermark).contains(f) <==> (
        all_files(n).contains(f) && is_changed(f, watermark)),
{
    let pred = changed_pred(watermark);
    let files = all_files(n);
    let cs = changed_files(n, watermark);
    assert forall|f: (Seq<char>, u64)| #[trigger] cs.contains(f) implies all_files(n).contains(f)
        && is_changed(f, watermark) by {
        files.lemma_filter_contains_rev(pred, f);
        let j = choose|j: int| 0 <= j < cs.len() && cs[j] == f;
        files.lemma_filter_pred(pred, j);
    }
    assert forall|f: (Seq<char>, u64)| all_files(n).contains(f) && is_changed(
        f,
        watermark,
    ) implies #[trigger] cs.contains(f) by {
        let i = choose|i: int| 0 <= i < files.len() && files[i] == f;
        files.lemma_filter_contains(pred, i);
    }
}

/// A scan of an unchanged tree reports nothing: where no file's
/// modification time exceeds the watermark, the changed set is empty.
pub proof fn lemma_unchanged_scan_empty(n: FsNode, watermark: u64)
    requires
        forall|f: (Seq<char>, u64)| #[trigger] all_files(n).contains(f) ==> f.1 <= watermark,
    ensures
        changed_files(n, watermark).len() == 0,
{
    lemma_detection_complete(n, watermark);
    if changed_files(n, watermark).len() > 0 {
        let f = changed_files(n, watermark)[0];
        assert(changed_files(n, watermark).contains(f));
    }
}

} // verus!
