//! A tagged union of two error kinds, used by the two-source merge to report
//! which side failed.

use vstd::prelude::*;

verus! {

/// Either the left kind or the right kind.  The two-source merge reports a
/// base failure as `L` and an overlay failure as `R`, each as given.
#[derive(Debug, PartialEq, Eq)]
pub enum Or<L, R> {
    L(L),
    R(R),
}

} // verus!
