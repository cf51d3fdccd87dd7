//! Declarations of the repository accessor's outside types, so that they
//! can stand in signatures; both are opaque values carried through.

use vstd::prelude::*;

verus! {

#[verifier::external_type_specification]
#[verifier::external_body]
pub struct ExRepository(git2::Repository);

#[verifier::external_type_specification]
#[verifier::external_body]
pub struct ExGitError(git2::Error);

} // verus!
