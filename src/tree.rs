//! The directories under the root that get shortcuts, picked out of a walk.
use vstd::prelude::*;

use crate::path::texts;

verus! {

/// One item that a walk of the tree reports: its path, how many levels it
/// lies below the root (the root itself at 0), and whether it is a directory.
pub struct WalkEntry {
    pub path: String,
    pub depth: usize,
    pub is_dir: bool,
}

/// Whether a walk item gets a shortcut: a directory strictly below the root,
/// at most `max_depth` levels down. An item that the walk could not read
/// (`None`) is passed over.
pub open spec fn is_kept(e: Option<WalkEntry>, max_depth: nat) -> bool {
    match e {
        Some(w) => w.is_dir && 1 <= w.depth && w.depth <= max_depth,
        None => false,
    }
}

/// The paths of the kept items, in the order the walk reported them.
pub open spec fn kept_paths(entries: Seq<Option<WalkEntry>>, max_depth: nat) -> Seq<Seq<char>>
    decreases entries.len(),
{
    if entries.len() == 0 {
        Seq::empty()
    } else {
        let prev = kept_paths(entries.drop_last(), max_depth);
        if is_kept(entries.last(), max_depth) {
            prev.push(entries.last()->Some_0.path@)
        } else {
            prev
        }
    }
}

proof fn lemma_nothing_kept_at_depth_zero(entries: Seq<Option<WalkEntry>>)
    ensures
        kept_paths(entries, 0).len() == 0,
    decreases entries.len(),
{
    if entries.len() > 0 {
        lemma_nothing_kept_at_depth_zero(entries.drop_last());
    }
}

/// The directories from a walk of the root that get shortcuts.
pub fn collect_tree(entries: &Vec<Option<WalkEntry>>, depth: usize) -> (r: Vec<String>)
    ensures
        texts(r@) == kept_paths(entries@, depth as nat),
        depth == 0 ==> r.len() == 0,
{
    let mut out: Vec<String> = Vec::new();
    let mut k: usize = 0;
    while k < entries.len()
        invariant
            k <= entries.len(),
            texts(out@) == kept_paths(entries@.subrange(0, k as int), depth as nat),
        decreases entries.len() - k,
    {
        let ghost pre = entries@.subrange(0, k as int);
        assert(entries@.subrange(0, k + 1).drop_last() =~= pre);
        match &entries[k] {
            Some(w) => {
                if w.is_dir && 1 <= w.depth && w.depth <= depth {
                    let ghost before = out@;
                    out.push(w.path.clone());
                    assert(texts(out@) =~= texts(before).push(w.path@));
                }
            },
            None => {},
        }
        k = k + 1;
    }
    assert(entries@.subrange(0, entries.len() as int) =~= entries@);
    proof {
        lemma_nothing_kept_at_depth_zero(entries@);
    }
    out
}

} // verus!
