//! A snapshot model of the watched subtree, and what a scan of it means.
//!
//! A poll cycle works on a snapshot of the directory tree below the watch
//! root: each entry is a regular file with its modification time, a listable
//! directory with the snapshots of its entries, or an entry that could not
//! be read and contributes nothing. Modification times are nanoseconds
//! since the epoch; the epoch itself is `0`.

use vstd::prelude::*;

verus! {

/// One entry of a snapshot of the watched subtree.
pub enum FsNode {
    /// A regular file: its full path and its last-modification time.
    File { path: String, mtime: u64 },
    /// A directory that could be listed, with the snapshots of its entries
    /// in listing order.
    Dir { entries: Vec<FsNode> },
    /// An entry the scan skips: a directory that could not be listed (or
    /// vanished between being listed and being read), an entry whose
    /// metadata could not be read, or a special file. It contributes no
    /// files to the scan.
    Skipped,
}

/// A file reported as changed by a scan: its path and its modification time.
pub struct ChangedFile {
    pub path: String,
    pub mtime: u64,
}

impl View for ChangedFile {
    type V = (Seq<char>, u64);

    open spec fn view(&self) -> (Seq<char>, u64) {
        (self.path@, self.mtime)
    }
}

/// All regular files of a snapshot, in depth-first traversal order,
/// each as its path with its modification time.
pub open spec fn all_files(n: FsNode) -> Seq<(Seq<char>, u64)>
    decreases n, 1int, 0int,
{
    match n {
        FsNode::File { path, mtime } => seq![(path@, mtime)],
        FsNode::Dir { entries } => entry_files(entries@, entries@.len() as int),
        FsNode::Skipped => Seq::empty(),
    }
}

/// The regular files of the first `i` entries of a directory listing,
/// in depth-first order; a prefix reaching past the listing counts only
/// the entries there are.
pub open spec fn entry_files(entries: Seq<FsNode>, i: int) -> Seq<(Seq<char>, u64)>
    decreases entries, 0int, i,
{
    if i <= 0 || entries.len() < i {
        Seq::empty()
    } else {
        entry_files(entries, i - 1) + all_files(entries[i - 1])
    }
}

/// Whether a file stamp counts as changed against a watermark: its
/// modification time strictly exceeds the watermark.
pub open spec fn is_changed(f: (Seq<char>, u64), watermark: u64) -> bool {
    f.1 > watermark
}

/// The predicate a file stamp must meet to count as changed against
/// a watermark.
pub open spec fn changed_pred(watermark: u64) -> spec_fn((Seq<char>, u64)) -> bool {
    |f: (Seq<char>, u64)| is_changed(f, watermark)
}

/// The changed stamps among a sequence of file stamps, in order.
pub open spec fn changed_in(s: Seq<(Seq<char>, u64)>, watermark: u64) -> Seq<(Seq<char>, u64)> {
    s.filter(changed_pred(watermark))
}

/// The changed files of a snapshot against a watermark: exactly the regular
/// files whose modification time strictly exceeds the watermark, in
/// depth-first order.
pub open spec fn changed_files(n: FsNode, watermark: u64) -> Seq<(Seq<char>, u64)> {
    changed_in(all_files(n), watermark)
}

/// The number of regular files of a snapshot.
pub open spec fn file_count(n: FsNode) -> nat {
    all_files(n).len()
}

/// The stamps of a reported list of changed files.
pub open spec fn stamps(s: Seq<ChangedFile>) -> Seq<(Seq<char>, u64)> {
    s.map_values(|c: ChangedFile| c@)
}

/// No stamp of an empty sequence is changed.
pub proof fn lemma_changed_in_empty(watermark: u64)
    ensures
        changed_in(Seq::empty(), watermark) == Seq::<(Seq<char>, u64)>::empty(),
{
    reveal(Seq::filter);
}

/// A single stamp is kept exactly when it counts as changed.
pub proof fn lemma_changed_in_singleton(f: (Seq<char>, u64), watermark: u64)
    ensures
        changed_in(seq![f], watermark) == (if is_changed(f, watermark) {
            seq![f]
        } else {
            Seq::<(Seq<char>, u64)>::empty()
        }),
{
    reveal_with_fuel(Seq::filter, 2);
    assert(seq![f].drop_last() =~= Seq::<(Seq<char>, u64)>::empty());
    assert(seq![f].last() == f);
    if is_changed(f, watermark) {
        assert(changed_in(seq![f], watermark) =~= seq![f]);
    } else {
        assert(changed_in(seq![f], watermark) =~= Seq::<(Seq<char>, u64)>::empty());
    }
}

/// Selecting the changed stamps distributes over concatenation.
pub proof fn lemma_changed_in_add(a: Seq<(Seq<char>, u64)>, b: Seq<(Seq<char>, u64)>, watermark: u64)
    ensures
        changed_in(a + b, watermark) == changed_in(a, watermark) + changed_in(b, watermark),
{
    Seq::filter_distributes_over_add(a, b, changed_pred(watermark));
}

} // verus!
