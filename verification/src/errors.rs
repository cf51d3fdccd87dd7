//! The error taxonomy: argument handling, opening the repository, resolving
//! its head, and per-commit lookup failures during traversal.

use vstd::prelude::*;

verus! {

/// Everything that can go wrong while listing a repository's history.
///
/// `FailedToParseArgs` and `FailedToOpenRepository` are reported before any
/// traversal begins; `FailedToResolveHead` distinguishes "no starting point"
/// (an empty repository) from an unreadable repository; `FailedToLoadCommit`
/// is the per-node lookup failure that ends a traversal early;
/// `HistoryTooLarge` is the machine limit reached when the visited set can no
/// longer grow.
#[derive(Clone, Copy, Debug, PartialEq, Eq, Structural)]
pub enum HistoryError {
    FailedToParseArgs,
    FailedToOpenRepository,
    FailedToResolveHead,
    FailedToLoadCommit,
    HistoryTooLarge,
}

} // verus!
