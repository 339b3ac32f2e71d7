//! The path sandbox: the root and allow-list of the most recent completed
//! scan, plus the cross-call cancellation flag, held as one state value.

use vstd::prelude::*;

use crate::errors::AppError;
use crate::paths::{path_under, spec_path_under, str_eq};

verus! {

/// The sandbox state triple. A caller that serves concurrent requests
/// keeps one value of this behind a mutual-exclusion lock, so that a
/// check or an install is observed as a whole.
pub struct SandboxState {
    /// Canonical root of the most recent completed scan, if any.
    pub root: Option<String>,
    /// Canonical paths of every file that scan discovered.
    pub allowed: Vec<String>,
    /// Set by `cancel_scan`; cleared at the start of every scan.
    pub canceled: bool,
}

impl SandboxState {
    /// Holds when `p` is one of the allow-listed canonical paths.
    pub open spec fn spec_allowed_contains(self, p: Seq<char>) -> bool {
        exists|i: int| 0 <= i < self.allowed@.len() && #[trigger] self.allowed@[i]@ == p
    }

    /// Holds when the sandbox admits canonical path `p`: a root is
    /// installed, `p` lies under it, and `p` is on the allow-list.
    pub open spec fn spec_allows(self, p: Seq<char>) -> bool {
        &&& self.root is Some
        &&& spec_path_under(p, self.root->0@)
        &&& self.spec_allowed_contains(p)
    }

    /// The state before any scan: no root, nothing allowed, not canceled.
    pub fn new() -> (r: SandboxState)
        ensures
            r.root is None,
            r.allowed@.len() == 0,
            !r.canceled,
    {
        SandboxState { root: None, allowed: Vec::new(), canceled: false }
    }

    /// Asks the scan in progress, if any, to stop. Root and allow-list
    /// are untouched.
    pub fn cancel_scan(&mut self)
        ensures
            final(self).canceled,
            final(self).root == old(self).root,
            final(self).allowed == old(self).allowed,
    {
        self.canceled = true;
    }

    /// Clears the cancellation flag at the start of a scan, so that an
    /// earlier cancellation does not leak into the new one.
    pub fn begin_scan(&mut self)
        ensures
            !final(self).canceled,
            final(self).root == old(self).root,
            final(self).allowed == old(self).allowed,
    {
        self.canceled = false;
    }

    /// Reports whether a cancellation has been requested.
    pub fn is_cancel_requested(&self) -> (r: bool)
        ensures
            r == self.canceled,
    {
        self.canceled
    }

    /// Atomically replaces the root and the allow-list with the outcome
    /// of a completed scan.
    pub fn install(&mut self, root: String, allowed: Vec<String>)
        ensures
            final(self).root matches Some(rt) && rt@ == root@,
            final(self).allowed == allowed,
            final(self).canceled == old(self).canceled,
    {
        self.root = Some(root);
        self.allowed = allowed;
    }

    /// Checks an already-canonical path against the sandbox: `Ok` exactly
    /// when the sandbox admits it; `InvalidRootPath` when no scan has ever
    /// installed a root; `PathNotAllowed` otherwise.
    pub fn check_canonical(&self, canonical: &str) -> (r: Result<(), AppError>)
        ensures
            r is Ok <==> self.spec_allows(canonical@),
            self.root is None ==> (r matches Err(e) && e is InvalidRootPath),
            self.root is Some && !self.spec_allows(canonical@) ==> (r matches Err(e)
                && e is PathNotAllowed),
    {
        match &self.root {
            None => Err(AppError::InvalidRootPath),
            Some(rt) => {
                if !path_under(canonical, rt.as_str()) {
                    return Err(AppError::PathNotAllowed);
                }
                let n = self.allowed.len();
                let mut i: usize = 0;
                while i < n
                    invariant
                        0 <= i <= n,
                        n == self.allowed@.len(),
                        self.root matches Some(rt2) && spec_path_under(canonical@, rt2@),
                        forall|j: int| 0 <= j < i ==> self.allowed@[j]@ != canonical@,
                    decreases n - i,
                {
                    if str_eq(self.allowed[i].as_str(), canonical) {
                        return Ok(());
                    }
                    i = i + 1;
                }
                proof {
                    assert(!self.spec_allowed_contains(canonical@));
                }
                Err(AppError::PathNotAllowed)
            },
        }
    }

    /// Canonicalizes a caller-supplied path string and checks it against
    /// the sandbox. On success the returned canonical path is admitted;
    /// before any scan the answer is always `InvalidRootPath`; a path that
    /// cannot be resolved yields `IoError`; one the sandbox refuses,
    /// `PathNotAllowed`.
    pub fn ensure_allowed_path(&self, path: &str) -> (r: Result<String, AppError>)
        ensures
            self.root is None <==> (r matches Err(e) && e is InvalidRootPath),
            r matches Ok(c) ==> self.spec_allows(c@),
            r matches Err(e) ==> (e is InvalidRootPath || e is PathNotAllowed || e is IoError),
    {
        if self.root.is_none() {
            return Err(AppError::InvalidRootPath);
        }
        match normalize_path(path) {
            Err(e) => Err(e),
            Ok(c) => match self.check_canonical(c.as_str()) {
                Ok(()) => Ok(c),
                Err(e) => Err(e),
            },
        }
    }
}

/// Resolves a path to its canonical, symlink-free absolute form.
///
/// Relies on `std::path::Path::canonicalize`: the result depends on the
/// state of the filesystem at the moment of the call, so nothing is
/// claimed of the returned path itself, only that every failure surfaces
/// as `IoError` with the underlying diagnostic.
#[verifier::external_body]
pub fn normalize_path(path: &str) -> (r: Result<String, AppError>)
    ensures
        r matches Err(e) ==> e is IoError,
{
    match std::path::Path::new(path).canonicalize() {
        Ok(p) => Ok(p.to_string_lossy().into_owned()),
        Err(e) => Err(AppError::IoError(e.to_string())),
    }
}

} // verus!
