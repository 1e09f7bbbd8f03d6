//! The directory walk: how deep it goes, and setting it up with globwalk.
use vstd::prelude::*;

use crate::error::Error;

verus! {

/// The deepest level a recursive walk descends to.
pub const DEFAULT_MAX_DEPTH: usize = 512;

/// The deepest level a walk descends to: the base directory's own entries only,
/// unless it is recursive.
pub open spec fn depth_limit(recursive: bool) -> nat {
    if recursive {
        DEFAULT_MAX_DEPTH as nat
    } else {
        1
    }
}

/// Whether `depth` lies within the bound that `depth_limit` sets (the base
/// directory's own entries are at depth one).
pub open spec fn reaches(depth: nat, recursive: bool) -> bool {
    1 <= depth <= depth_limit(recursive)
}

/// The deepest level a walk descends to.
pub fn walk_depth(recursive: bool) -> (r: usize)
    ensures
        r == depth_limit(recursive),
{
    if recursive {
        DEFAULT_MAX_DEPTH
    } else {
        1
    }
}

/// The depth bound that `walk_depth` selects, and `glob_walker` hands to globwalk,
/// excludes every depth from two on when not recursive, and includes those up to
/// `DEFAULT_MAX_DEPTH` when recursive.
pub proof fn lemma_depth_bound(depth: nat)
    requires
        2 <= depth <= DEFAULT_MAX_DEPTH,
    ensures
        !reaches(depth, false),
        reaches(depth, true),
{
}

#[verifier::external_type_specification]
#[verifier::external_body]
pub struct ExGlobWalker(globwalk::GlobWalker);

#[verifier::external_type_specification]
#[verifier::external_body]
pub struct ExDirEntry(globwalk::DirEntry);

#[verifier::external_type_specification]
#[verifier::external_body]
pub struct ExWalkError(globwalk::WalkError);

#[verifier::external_type_specification]
#[verifier::external_body]
pub struct ExGlobError(globwalk::GlobError);

/// Whether globwalk compiles `pattern` into a matcher. Building a walk does no
/// file-system work, so this depends on the pattern alone.
pub uninterp spec fn glob_compiles(pattern: Seq<char>) -> bool;

/// Relies on globwalk's `GlobWalkerBuilder::new`, `max_depth` and `build`: a walk of
/// `base` matching `pattern` that descends at most `depth` levels, which can be built
/// exactly when the pattern compiles.
#[verifier::external_body]
fn build_walker(base: &str, pattern: &str, depth: usize) -> (r: Result<globwalk::GlobWalker, globwalk::GlobError>)
    ensures
        r is Ok <==> glob_compiles(pattern@),
{
    globwalk::GlobWalkerBuilder::new(base, pattern).max_depth(depth).build()
}

/// Relies on the `Display` impl of globwalk's `GlobError`: the message of the error.
#[verifier::external_body]
fn glob_error_text(e: &globwalk::GlobError) -> String {
    e.to_string()
}

/// Sets up a walk of `base_path` that yields the entries matching `pattern`,
/// down to the depth that `recursive` selects. A pattern that globwalk cannot
/// compile gives a `Walk` error. The depth handed to globwalk is `walk_depth(recursive)`.
pub fn glob_walker(base_path: &str, pattern: &str, recursive: bool) -> (r: Result<globwalk::GlobWalker, Error>)
    ensures
        r is Ok <==> glob_compiles(pattern@),
        r matches Err(e) ==> e is Walk,
{
    match build_walker(base_path, pattern, walk_depth(recursive)) {
        Ok(w) => Ok(w),
        Err(e) => Err(Error::Walk(glob_error_text(&e))),
    }
}

/// The directory a walk starts from: the one given, else the current one.
pub fn base_dir(base_path: Option<String>) -> (r: String)
    ensures
        match base_path {
            Some(p) => r@ == p@,
            None => r@ == seq!['.'],
        },
{
    match base_path {
        Some(p) => p,
        None => {
            proof { reveal_strlit("."); }
            String::from_str(".")
        },
    }
}

} // verus!
