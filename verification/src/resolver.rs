//! From a requested path to a path that may be served.
//!
//! Two checks stand between a request and the file system. The first reads
//! the requested path as text: it may hold no `..` segment. The second reads
//! what the file system made of it: the canonical path must lie under the
//! user's root, component by component, so that a link that leads out of the
//! root is caught as well. A `ResolvedPath` can only be had by passing both.

use vstd::prelude::*;
use crate::credentials::AuthenticatedIdentity;
use crate::path::{
    has_parent_dir, has_parent_segment, join_request, lemma_join_keeps_parent_segment,
    path_starts_with, request_target, starts_with,
};
use crate::text::opt_text;

verus! {

/// Why a requested path may not be served.
#[derive(Debug, Clone, Copy, PartialEq, Eq)]
pub enum PathError {
    /// The requested path holds a `..` segment.
    Traversal,
    /// The file system could not make the path canonical.
    Unresolvable,
    /// The canonical path does not lie under the root.
    Escape,
}

/// A canonical path, and the root that it was found to lie under.
#[derive(Debug, PartialEq, Eq)]
pub struct ResolvedPath {
    path: String,
    root: String,
}

/// A `ResolvedPath` as text.
pub struct ResolvedView {
    pub path: Seq<char>,
    pub root: Seq<char>,
}

impl View for ResolvedPath {
    type V = ResolvedView;

    closed spec fn view(&self) -> ResolvedView {
        ResolvedView { path: self.path@, root: self.root@ }
    }
}

/// Whether the path lies under the root, component by component. Every
/// `ResolvedPath` does.
pub open spec fn lies_under_root(resolved: ResolvedView) -> bool {
    path_starts_with(resolved.path, resolved.root)
}

impl ResolvedPath {
    /// What holds of every `ResolvedPath`: the path lies under the root.
    #[verifier::type_invariant]
    closed spec fn contained(&self) -> bool {
        path_starts_with(self.path@, self.root@)
    }

    /// The canonical path. It lies under the root.
    pub fn path(&self) -> (p: &str)
        ensures
            p@ == self@.path,
            lies_under_root(self@),
    {
        proof {
            use_type_invariant(self);
        }
        self.path.as_str()
    }

    /// The root that the path lies under.
    pub fn root(&self) -> (p: &str)
        ensures
            p@ == self@.root,
            lies_under_root(self@),
    {
        proof {
            use_type_invariant(self);
        }
        self.root.as_str()
    }
}

/// The text form of the outcome of a resolution.
pub open spec fn outcome_view(r: Result<ResolvedPath, PathError>) -> Result<
    ResolvedView,
    PathError,
> {
    match r {
        Ok(resolved) => Ok(resolved@),
        Err(e) => Err(e),
    }
}

/// Whether a path that was put together from root and request, and what the
/// file system made of it, pass both checks.
pub open spec fn safe(target: Seq<char>, canonical: Option<Seq<char>>, base: Seq<char>) -> bool {
    &&& !has_parent_segment(target)
    &&& canonical is Some
    &&& path_starts_with(canonical->0, base)
}

/// The second check alone: the canonical path must exist and lie under `root`.
pub open spec fn confined(root: Seq<char>, canonical: Option<Seq<char>>) -> Result<
    ResolvedView,
    PathError,
> {
    match canonical {
        None => Err(PathError::Unresolvable),
        Some(path) => if path_starts_with(path, root) {
            Ok(ResolvedView { path, root })
        } else {
            Err(PathError::Escape)
        },
    }
}

/// Both checks, in order: a `..` segment is refused whatever the file system
/// says of the path.
pub open spec fn resolution(
    root: Seq<char>,
    requested: Option<Seq<char>>,
    canonical: Option<Seq<char>>,
) -> Result<ResolvedView, PathError> {
    if has_parent_segment(request_target(root, requested)) {
        Err(PathError::Traversal)
    } else {
        confined(root, canonical)
    }
}

/// A request with a `..` segment is refused, whatever root it is made under
/// and wherever the file system says the path leads.
pub proof fn lemma_parent_segment_is_refused(
    root: Seq<char>,
    rel: Seq<char>,
    canonical: Option<Seq<char>>,
)
    requires
        has_parent_segment(rel),
    ensures
        resolution(root, Some(rel), canonical) == Err::<ResolvedView, PathError>(
            PathError::Traversal,
        ),
{
    lemma_join_keeps_parent_segment(root, rel);
}

/// A path that the file system places outside the root is refused, however
/// the request was written.
pub proof fn lemma_escape_is_refused(
    root: Seq<char>,
    requested: Option<Seq<char>>,
    canonical: Seq<char>,
)
    requires
        !path_starts_with(canonical, root),
    ensures
        resolution(root, requested, Some(canonical)) is Err,
{
}

/// Resolution succeeds exactly where both checks pass, and then yields the
/// canonical path.
pub proof fn lemma_resolution_is_safe(
    root: Seq<char>,
    requested: Option<Seq<char>>,
    canonical: Option<Seq<char>>,
)
    ensures
        resolution(root, requested, canonical) is Ok <==> safe(
            request_target(root, requested),
            canonical,
            root,
        ),
        resolution(root, requested, canonical) matches Ok(resolved) ==> Some(resolved.path)
            == canonical && resolved.root == root && lies_under_root(resolved),
{
}

/// Whether `path` may be served from `base_dir`, given what the file system
/// made of it: `None` where it could not make the path canonical.
pub fn is_safe(path: &str, canonical: Option<&str>, base_dir: &str) -> (ok: bool)
    ensures
        ok == safe(path@, opt_text(canonical), base_dir@),
{
    if has_parent_dir(path) {
        return false;
    }
    match canonical {
        Some(true_path) => starts_with(true_path, base_dir),
        None => false,
    }
}

/// The second check: passes the canonical path where it lies under `root`.
pub fn confine(root: &str, canonical: Option<&str>) -> (r: Result<ResolvedPath, PathError>)
    ensures
        outcome_view(r) == confined(root@, opt_text(canonical)),
{
    match canonical {
        None => Err(PathError::Unresolvable),
        Some(true_path) => {
            if starts_with(true_path, root) {
                Ok(ResolvedPath { path: true_path.to_owned(), root: root.to_owned() })
            } else {
                Err(PathError::Escape)
            }
        },
    }
}

/// Resolves what `identity` requested, given what the file system made of the
/// path that `join_request` puts together from root and request.
pub fn resolve(
    identity: &AuthenticatedIdentity,
    requested: Option<&str>,
    canonical: Option<&str>,
) -> (r: Result<ResolvedPath, PathError>)
    ensures
        outcome_view(r) == resolution(
            identity@.root_directory,
            opt_text(requested),
            opt_text(canonical),
        ),
{
    let target = join_request(identity.root_directory.as_str(), requested);
    if has_parent_dir(target.as_str()) {
        Err(PathError::Traversal)
    } else {
        confine(identity.root_directory.as_str(), canonical)
    }
}

} // verus!
