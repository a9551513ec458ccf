use vstd::prelude::*;
use vstd::string::StringSliceAdditionalSpecFns;
use vstd::utf8::valid_utf8;

use crate::listing::{branch_listed, has_infix, listed_form, SyncError};

verus! {

/// How many entries of a listing are directories.
pub open spec fn dir_count(is_dir: Seq<bool>) -> nat
    decreases is_dir.len(),
{
    if is_dir.len() == 0 {
        0
    } else {
        dir_count(is_dir.drop_last()) + if is_dir.last() {
            1nat
        } else {
            0nat
        }
    }
}

/// The positions of the directories in a listing, in listing order.
pub open spec fn dir_positions(is_dir: Seq<bool>) -> Seq<int>
    decreases is_dir.len(),
{
    if is_dir.len() == 0 {
        seq![]
    } else if is_dir.last() {
        dir_positions(is_dir.drop_last()).push(is_dir.len() - 1)
    } else {
        dir_positions(is_dir.drop_last())
    }
}

/// One directory to sync: where it stands in the listing, and its place
/// counted from one among all entries, as the progress line shows it.
#[derive(Debug, Clone, Copy, PartialEq, Eq, Structural)]
pub struct Visit {
    pub entry: usize,
    pub position: usize,
}

/// The work of a batch over a listing: how many directories it holds, and
/// the directories to visit, in listing order.
#[derive(Debug, Clone, PartialEq, Eq)]
pub struct SyncPlan {
    pub total: usize,
    pub visits: Vec<Visit>,
}

/// What to run in a repository once its branches are known.
#[derive(Debug, Clone, Copy, PartialEq, Eq, Structural)]
pub enum GitStep {
    Checkout,
    Pull,
}

/// The steps for a repository in which the branch was or was not found.
pub open spec fn steps_for(found: bool) -> Seq<GitStep> {
    if found {
        seq![GitStep::Checkout, GitStep::Pull]
    } else {
        seq![]
    }
}

proof fn lemma_dir_count_bounded(is_dir: Seq<bool>)
    ensures
        dir_count(is_dir) <= is_dir.len(),
    decreases is_dir.len(),
{
    if is_dir.len() > 0 {
        lemma_dir_count_bounded(is_dir.drop_last());
    }
}

/// The counting pass: how many entries are directories.
pub fn count_dirs(is_dir: &Vec<bool>) -> (r: usize)
    ensures
        r == dir_count(is_dir@),
{
    let mut count: usize = 0;
    let mut i: usize = 0;
    proof {
        assert(is_dir@.take(0) =~= seq![]);
    }
    while i < is_dir.len()
        invariant
            i <= is_dir@.len(),
            count == dir_count(is_dir@.take(i as int)),
        decreases is_dir@.len() - i,
    {
        proof {
            assert(is_dir@.take(i + 1).drop_last() =~= is_dir@.take(i as int));
            lemma_dir_count_bounded(is_dir@.take(i + 1));
        }
        if is_dir[i] {
            count = count + 1;
        }
        i = i + 1;
    }
    proof {
        assert(is_dir@.take(i as int) =~= is_dir@);
    }
    count
}

/// Plans a batch over a listing whose entries are or are not directories:
/// every directory is visited once, in listing order, and nothing else.
pub fn plan(is_dir: &Vec<bool>) -> (r: SyncPlan)
    ensures
        r.total == dir_count(is_dir@),
        r.visits@.map_values(|v: Visit| v.entry as int) == dir_positions(is_dir@),
        forall|k: int| 0 <= k < r.visits@.len() ==> #[trigger] r.visits@[k].position
            == r.visits@[k].entry + 1,
{
    let total = count_dirs(is_dir);
    let mut visits: Vec<Visit> = Vec::new();
    let mut i: usize = 0;
    proof {
        assert(is_dir@.take(0) =~= seq![]);
    }
    while i < is_dir.len()
        invariant
            i <= is_dir@.len(),
            visits@.map_values(|v: Visit| v.entry as int) == dir_positions(is_dir@.take(i as int)),
            forall|k: int| 0 <= k < visits@.len() ==> #[trigger] visits@[k].position
                == visits@[k].entry + 1,
        decreases is_dir@.len() - i,
    {
        proof {
            assert(is_dir@.take(i + 1).drop_last() =~= is_dir@.take(i as int));
        }
        if is_dir[i] {
            let ghost before = visits@;
            visits.push(Visit { entry: i, position: i + 1 });
            proof {
                assert(visits@.map_values(|v: Visit| v.entry as int) =~= before.map_values(
                    |v: Visit| v.entry as int,
                ).push(i as int));
            }
        }
        i = i + 1;
    }
    proof {
        assert(is_dir@.take(i as int) =~= is_dir@);
    }
    SyncPlan { total, visits }
}

/// The steps to run in a repository once it is known whether the branch is
/// there: checkout, then pull; or nothing.
pub fn repo_steps(found: bool) -> (r: Vec<GitStep>)
    ensures
        r@ == steps_for(found),
{
    let mut steps: Vec<GitStep> = Vec::new();
    if found {
        steps.push(GitStep::Checkout);
        steps.push(GitStep::Pull);
    }
    proof {
        assert(steps@ =~= steps_for(found));
    }
    steps
}

/// The steps to run in a repository whose `git branch` wrote `listing`:
/// checkout then pull where `branch` is listed, nothing where it is not.
/// Fails when the listing is not well-formed UTF-8.
pub fn plan_repo(listing: &[u8], branch: &str) -> (r: Result<Vec<GitStep>, SyncError>)
    ensures
        r is Err <==> !valid_utf8(listing@),
        r matches Err(e) ==> e == SyncError::InvalidText,
        r matches Ok(steps) ==> steps@ == steps_for(
            has_infix(listing@, listed_form(branch.spec_bytes())),
        ),
{
    match branch_listed(listing, branch) {
        Err(e) => Err(e),
        Ok(found) => Ok(repo_steps(found)),
    }
}

/// The batch visits exactly as many entries as the counting pass reports,
/// each of them a directory, every directory among them, in listing order.
pub proof fn lemma_plan_visits_each_dir(is_dir: Seq<bool>)
    ensures
        dir_positions(is_dir).len() == dir_count(is_dir),
        forall|k: int|
            0 <= k < dir_positions(is_dir).len() ==> 0 <= #[trigger] dir_positions(is_dir)[k]
                < is_dir.len() && is_dir[dir_positions(is_dir)[k]],
        forall|i: int|
            0 <= i < is_dir.len() && #[trigger] is_dir[i] ==> dir_positions(is_dir).contains(i),
        forall|k: int, l: int|
            0 <= k < l < dir_positions(is_dir).len() ==> dir_positions(is_dir)[k]
                < dir_positions(is_dir)[l],
    decreases is_dir.len(),
{
    if is_dir.len() > 0 {
        let prev = is_dir.drop_last();
        lemma_plan_visits_each_dir(prev);
        let p = dir_positions(prev);
        assert forall|i: int| 0 <= i < is_dir.len() && #[trigger] is_dir[i] implies dir_positions(
            is_dir,
        ).contains(i) by {
            if i < is_dir.len() - 1 {
                assert(prev[i] == is_dir[i]);
                let k = choose|k: int| 0 <= k < p.len() && p[k] == i;
                assert(dir_positions(is_dir)[k] == i);
            } else {
                assert(dir_positions(is_dir).last() == i);
            }
        }
    }
}

} // verus!
