//! The protection of the branches of a repository: what is wanted and what is there.
use vstd::prelude::*;

use crate::api::{BranchProtection, BranchProtectionView};
use crate::diff::{
    BranchProtectionDiff, BranchProtectionDiffOperation, BranchProtectionDiffOperationView,
    BranchProtectionDiffView,
};
use crate::lists::{contains_name, distinct, distinct_names};
use crate::rules::{branch_protection, wanted_protection};
use crate::sync::SyncGitHub;
use crate::team_data::{BranchView, Repo, RepoView};

verus! {

/// What is there of a branch that is to be protected.
#[derive(PartialEq, Debug)]
pub enum BranchState {
    /// There is no such branch; `head` is the commit at the head of the main branch.
    Missing { head: String },
    /// The branch exists, with its protection if it has one.
    Present { protection: Option<BranchProtection> },
}

pub enum BranchStateView {
    Missing { head: Seq<char> },
    Present { protection: Option<BranchProtectionView> },
}

impl DeepView for BranchState {
    type V = BranchStateView;

    open spec fn deep_view(&self) -> BranchStateView {
        match self {
            BranchState::Missing { head } => BranchStateView::Missing { head: head@ },
            BranchState::Present { protection } => BranchStateView::Present {
                protection: protection.deep_view(),
            },
        }
    }
}

/// The names of the branches that are to be protected.
pub open spec fn branch_names(repo: RepoView) -> Seq<Seq<char>> {
    repo.branches.map_values(|branch: BranchView| branch.name)
}

/// What is to be done about one branch that is to be protected.
pub open spec fn branch_operation(
    wanted: BranchProtectionView,
    state: BranchStateView,
) -> Option<BranchProtectionDiffOperationView> {
    match state {
        BranchStateView::Missing { head } => Some(
            BranchProtectionDiffOperationView::CreateWithBranch(wanted, head),
        ),
        BranchStateView::Present { protection: None } => Some(
            BranchProtectionDiffOperationView::Create(wanted),
        ),
        BranchStateView::Present { protection: Some(actual) } => if actual == wanted {
            None
        } else {
            Some(BranchProtectionDiffOperationView::Update(actual, wanted))
        },
    }
}

/// What is to be done about the branches that are to be protected, in their order; nothing
/// about those whose protection is the wanted one.
pub open spec fn wanted_branch_diffs(
    repo: RepoView,
    branches: Seq<BranchView>,
    states: Seq<BranchStateView>,
) -> Seq<BranchProtectionDiffView>
    decreases branches.len(),
{
    if branches.len() == 0 {
        Seq::empty()
    } else {
        let earlier = wanted_branch_diffs(repo, branches.drop_last(), states);
        let branch = branches.last();
        match branch_operation(wanted_protection(repo, branch), states[branches.len() - 1]) {
            Some(operation) => earlier.push(
                BranchProtectionDiffView { name: branch.name, operation },
            ),
            None => earlier,
        }
    }
}

/// The protected branches that are not meant to be protected, each named once.
pub open spec fn stray_protections(repo: RepoView, protected: Seq<Seq<char>>) -> Seq<Seq<char>> {
    distinct(protected).filter(|name: Seq<char>| !branch_names(repo).contains(name))
}

/// The difference between the wanted protections and those that there are: what the branches
/// need, then which protections are to be removed.
pub open spec fn branch_protection_diffs(
    repo: RepoView,
    states: Seq<BranchStateView>,
    protected: Seq<Seq<char>>,
) -> Seq<BranchProtectionDiffView> {
    wanted_branch_diffs(repo, repo.branches, states) + stray_protections(
        repo,
        protected,
    ).map_values(
        |name: Seq<char>|
            BranchProtectionDiffView { name, operation: BranchProtectionDiffOperationView::Delete },
    )
}

/// Lists the protected branches that are not meant to be protected.
pub(crate) fn protections_to_remove(repo: &Repo, protected: &Vec<String>) -> (stray: Vec<String>)
    ensures
        stray.deep_view() == stray_protections(repo.deep_view(), protected.deep_view()),
{
    let ghost view = repo.deep_view();
    let protected = distinct_names(protected);
    let ghost all = protected.deep_view();
    let ghost keep = |name: Seq<char>| !branch_names(view).contains(name);
    let mut names: Vec<String> = Vec::new();
    for i in 0..repo.branches.len()
        invariant
            names.len() == i,
            forall|j: int| 0 <= j < i ==> #[trigger] names@[j]@ == repo.branches@[j].name@,
    {
        names.push(repo.branches[i].name.clone());
    }
    assert(names.deep_view() =~= branch_names(view));
    let mut stray: Vec<String> = Vec::new();
    assert(stray.deep_view() =~= all.take(0).filter(keep)) by {
        reveal(Seq::filter);
    }
    for i in 0..protected.len()
        invariant
            all == protected.deep_view(),
            keep == (|name: Seq<char>| !branch_names(view).contains(name)),
            names.deep_view() == branch_names(view),
            stray.deep_view() == all.take(i as int).filter(keep),
    {
        let ghost before = stray.deep_view();
        proof {
            all.take(i as int).lemma_filter_push(all[i as int], keep);
            assert(all.take(i + 1) =~= all.take(i as int).push(all[i as int]));
        }
        if !contains_name(&names, &protected[i]) {
            stray.push(protected[i].clone());
            assert(stray.deep_view() =~= before.push(all[i as int]));
        }
    }
    assert(all.take(protected.len() as int) =~= all);
    stray
}

impl SyncGitHub {
    /// Compares the wanted protections of the branches of a repository with those that there
    /// are. `states` tells of each branch that is to be protected what is there of it, and
    /// `protected` names all protected branches.
    pub fn diff_branch_protections(
        &self,
        expected_repo: &Repo,
        states: &Vec<BranchState>,
        protected: &Vec<String>,
    ) -> (diffs: Vec<BranchProtectionDiff>)
        requires
            states.len() == expected_repo.branches.len(),
        ensures
            diffs.deep_view() == branch_protection_diffs(
                expected_repo.deep_view(),
                states.deep_view(),
                protected.deep_view(),
            ),
    {
        let ghost repo = expected_repo.deep_view();
        let ghost there = states.deep_view();
        let mut diffs: Vec<BranchProtectionDiff> = Vec::new();
        assert(diffs.deep_view() =~= wanted_branch_diffs(repo, repo.branches.take(0), there));
        for i in 0..expected_repo.branches.len()
            invariant
                states.len() == expected_repo.branches.len(),
                repo == expected_repo.deep_view(),
                there == states.deep_view(),
                diffs.deep_view() == wanted_branch_diffs(
                    repo,
                    repo.branches.take(i as int),
                    there,
                ),
        {
            let branch = &expected_repo.branches[i];
            let wanted = branch_protection(expected_repo, branch);
            let ghost before = diffs.deep_view();
            let ghost view = wanted.deep_view();
            proof {
                let next = repo.branches.take(i + 1);
                assert(next.drop_last() =~= repo.branches.take(i as int));
                assert(next.last() == branch.deep_view());
            }
            let operation = match &states[i] {
                BranchState::Missing { head } => Some(
                    BranchProtectionDiffOperation::CreateWithBranch(wanted, head.clone()),
                ),
                BranchState::Present { protection } => match protection {
                    None => Some(BranchProtectionDiffOperation::Create(wanted)),
                    Some(actual) => if *actual == wanted {
                        None
                    } else {
                        Some(BranchProtectionDiffOperation::Update(actual.clone(), wanted))
                    },
                },
            };
            assert(operation.deep_view() == branch_operation(view, there[i as int]));
            if let Some(operation) = operation {
                let ghost done = operation.deep_view();
                diffs.push(BranchProtectionDiff { name: branch.name.clone(), operation });
                assert(diffs.deep_view() =~= before.push(
                    BranchProtectionDiffView { name: branch.name@, operation: done },
                ));
            }
        }
        assert(repo.branches.take(repo.branches.len() as int) =~= repo.branches);
        let stray = protections_to_remove(expected_repo, protected);
        let ghost first = diffs.deep_view();
        let ghost removed = stray_protections(repo, protected.deep_view()).map_values(
            |name: Seq<char>|
                BranchProtectionDiffView {
                    name,
                    operation: BranchProtectionDiffOperationView::Delete,
                },
        );
        assert(diffs.deep_view() =~= first + removed.take(0));
        for i in 0..stray.len()
            invariant
                removed.len() == stray.len(),
                forall|j: int|
                    0 <= j < stray.len() ==> #[trigger] removed[j] == (BranchProtectionDiffView {
                        name: stray@[j]@,
                        operation: BranchProtectionDiffOperationView::Delete,
                    }),
                diffs.deep_view() == first + removed.take(i as int),
        {
            let ghost before = diffs.deep_view();
            diffs.push(
                BranchProtectionDiff {
                    name: stray[i].clone(),
                    operation: BranchProtectionDiffOperation::Delete,
                },
            );
            proof {
                assert(diffs.deep_view() =~= before.push(removed[i as int]));
                assert(diffs.deep_view() =~= first + removed.take(i + 1));
            }
        }
        assert(removed.take(stray.len() as int) =~= removed);
        diffs
    }
}

} // verus!
