use vstd::prelude::*;

use crate::types::RecentProject;

verus! {

/// How many projects the recent list keeps.
pub const MAX_RECENT_PROJECTS: usize = 10;

/// The projects of `s` whose path is not `path`, in order.
pub open spec fn other_projects(s: Seq<RecentProject>, path: Seq<char>) -> Seq<RecentProject>
    decreases s.len(),
{
    if s.len() == 0 {
        Seq::empty()
    } else {
        let rest = other_projects(s.drop_last(), path);
        if s.last().path@ == path {
            rest
        } else {
            rest.push(s.last())
        }
    }
}

/// The recent list after opening `opened`: it comes first, any earlier mention
/// of its path is dropped, and at most ten projects are kept.
pub open spec fn recent_after(s: Seq<RecentProject>, opened: RecentProject) -> Seq<RecentProject> {
    let all = seq![opened] + other_projects(s, opened.path@);
    if all.len() > MAX_RECENT_PROJECTS {
        all.subrange(0, MAX_RECENT_PROJECTS as int)
    } else {
        all
    }
}

/// Puts a just-opened project at the head of the recent list.
pub fn record_recent_project(projects: Vec<RecentProject>, opened: RecentProject) -> (r: Vec<
    RecentProject,
>)
    ensures
        r@ == recent_after(projects@, opened),
{
    let ghost orig = projects@;
    let ghost path = opened.path@;
    let mut rest = projects;
    let mut out: Vec<RecentProject> = Vec::new();
    out.push(opened);
    let ghost n = orig.len();
    let ghost mut k: int = 0;
    while rest.len() > 0
        invariant
            0 <= k <= n == orig.len(),
            rest@ == orig.subrange(k, n as int),
            out@ == seq![opened] + other_projects(orig.subrange(0, k), path),
            out@[0] == opened,
            path == opened.path@,
        decreases rest@.len(),
    {
        let p = rest.remove(0);
        proof {
            assert(orig.subrange(0, k + 1).drop_last() =~= orig.subrange(0, k));
            assert(orig.subrange(0, k + 1).last() == p);
        }
        if p.path != out[0].path {
            out.push(p);
        }
        proof {
            k = k + 1;
            assert(rest@ =~= orig.subrange(k, n as int));
        }
    }
    proof {
        assert(orig.subrange(0, n as int) =~= orig);
    }
    out.truncate(MAX_RECENT_PROJECTS);
    proof {
        let all = seq![opened] + other_projects(orig, path);
        if all.len() <= MAX_RECENT_PROJECTS {
            assert(out@ =~= all);
        } else {
            assert(out@ =~= all.subrange(0, MAX_RECENT_PROJECTS as int));
        }
    }
    out
}

} // verus!
