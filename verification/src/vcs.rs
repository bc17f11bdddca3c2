//! The version-control safety gate. Querying the working tree is the
//! caller's concern; the decision whether destructive application may
//! proceed is taken here, from the reported status and the user's
//! override flags.

use vstd::prelude::*;

verus! {

/// The state of the working tree as the version-control query reports
/// it: no repository at all, a clean tree, a tree with dirty and/or
/// staged files, or a failed query.
#[derive(Debug)]
pub enum Status {
    NoRepository,
    Clean,
    Unclean { dirty: Vec<String>, staged: Vec<String> },
    QueryError(String),
}

/// The decision on destructive application: proceed, or refuse and say
/// why. A refusal over an unclean tree carries the offending files.
#[derive(Debug)]
pub enum ApplyGate {
    Proceed,
    RefuseNoVcs,
    RefuseUnclean { dirty: Vec<String>, staged: Vec<String> },
    RefuseQueryError(String),
}

/// Whether application is allowed under `status` and the three override
/// flags: a clean tree always proceeds; a missing repository only with
/// `allow_no_vcs`; an unclean tree only when its dirty files are allowed
/// (or there are none) and likewise its staged files; a failed query
/// never proceeds.
pub open spec fn spec_may_apply(
    status: Status,
    allow_dirty: bool,
    allow_staged: bool,
    allow_no_vcs: bool,
) -> bool {
    match status {
        Status::Clean => true,
        Status::NoRepository => allow_no_vcs,
        Status::Unclean { dirty, staged } => (dirty@.len() == 0 || allow_dirty) && (staged@.len()
            == 0 || allow_staged),
        Status::QueryError(_) => false,
    }
}

/// Decides whether destructive application may proceed. Exactly when
/// every currently violated precondition has its override set, the
/// verdict is `Proceed`; otherwise the verdict names the violation, and
/// a refusal over an unclean tree lists the dirty and staged files as
/// the query reported them.
pub fn check_preconditions(
    status: Status,
    allow_dirty: bool,
    allow_staged: bool,
    allow_no_vcs: bool,
) -> (g: ApplyGate)
    ensures
        g is Proceed <==> spec_may_apply(status, allow_dirty, allow_staged, allow_no_vcs),
        (status matches Status::Unclean { dirty, staged } && !((dirty@.len() == 0 || allow_dirty)
            && (staged@.len() == 0 || allow_staged))) ==> (g matches ApplyGate::RefuseUnclean {
            dirty: gd,
            staged: gs,
        } && gd@ == status->Unclean_dirty@ && gs@ == status->Unclean_staged@),
        status is NoRepository && !allow_no_vcs ==> g is RefuseNoVcs,
        status is QueryError ==> (g matches ApplyGate::RefuseQueryError(gm) && gm@
            == status->QueryError_0@),
{
    match status {
        Status::Clean => ApplyGate::Proceed,
        Status::NoRepository => {
            if allow_no_vcs {
                ApplyGate::Proceed
            } else {
                ApplyGate::RefuseNoVcs
            }
        },
        Status::Unclean { dirty, staged } => {
            if (dirty.len() == 0 || allow_dirty) && (staged.len() == 0 || allow_staged) {
                ApplyGate::Proceed
            } else {
                ApplyGate::RefuseUnclean { dirty, staged }
            }
        },
        Status::QueryError(m) => ApplyGate::RefuseQueryError(m),
    }
}

} // verus!
