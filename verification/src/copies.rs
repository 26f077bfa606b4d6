//! Exact copies of values and of lists of them.

use vstd::prelude::*;

use crate::gc::{GcSkipped, GcWorktree};
use crate::prune::{PruneSkipped, PruneWorktree};
use crate::reclaim::CleanupError;

verus! {

/// A value that can be copied exactly.
pub trait ExactCopy: Sized {
    /// An equal value.
    fn exact_copy(&self) -> (r: Self)
        ensures
            r == *self,
    ;
}

impl ExactCopy for PruneWorktree {
    fn exact_copy(&self) -> (r: Self) {
        self.copy()
    }
}

impl ExactCopy for PruneSkipped {
    fn exact_copy(&self) -> (r: Self) {
        self.copy()
    }
}

impl ExactCopy for GcWorktree {
    fn exact_copy(&self) -> (r: Self) {
        self.copy()
    }
}

impl ExactCopy for GcSkipped {
    fn exact_copy(&self) -> (r: Self) {
        self.copy()
    }
}

impl ExactCopy for CleanupError {
    fn exact_copy(&self) -> (r: Self) {
        self.copy()
    }
}

/// Appends copies of all the values of a list.
pub fn extend_with<T: ExactCopy>(out: &mut Vec<T>, more: &Vec<T>)
    ensures
        final(out)@ == old(out)@ + more@,
{
    let ghost before = out@;
    let mut i: usize = 0;
    assert(before + more@.take(0) =~= before);
    while i < more.len()
        invariant
            i <= more.len(),
            out@ == before + more@.take(i as int),
        decreases more.len() - i,
    {
        out.push(more[i].exact_copy());
        assert(out@ =~= before + more@.take(i + 1));
        i += 1;
    }
    assert(more@.take(more.len() as int) =~= more@);
}

} // verus!
