//! The repositories on GitHub: what is wanted and what is there.
use vstd::prelude::*;

use crate::api::{
    BranchProtection, BranchProtectionView, Repo, RepoPermission, RepoTeam, RepoTeamView, RepoUser,
    RepoUserView, RepoView,
};
use crate::branches::{branch_protection_diffs, BranchState, BranchStateView};
use crate::diff::{
    CreateRepoDiff, CreateRepoDiffView, RepoCollaborator, RepoCollaboratorView, RepoDiff,
    RepoDiffView, UpdateRepoDiff, UpdateRepoDiffView,
};
use crate::permissions::{
    permission_diffs, team_grants, user_grants, wanted_teams, wanted_users,
};
use crate::rules::{branch_protection, wanted_protection};
use crate::sync::SyncGitHub;
use crate::team_data;

verus! {

/// A repository on GitHub with everything that is compared.
#[derive(PartialEq, Debug)]
pub struct ActualRepo {
    pub repo: Repo,
    pub teams: Vec<RepoTeam>,
    pub collaborators: Vec<RepoUser>,
    /// The names of all protected branches.
    pub protected: Vec<String>,
    /// What is there of the branches that are to be protected, in their order.
    pub branches: Vec<BranchState>,
}

pub struct ActualRepoView {
    pub repo: RepoView,
    pub teams: Seq<RepoTeamView>,
    pub collaborators: Seq<RepoUserView>,
    pub protected: Seq<Seq<char>>,
    pub branches: Seq<BranchStateView>,
}

impl DeepView for ActualRepo {
    type V = ActualRepoView;

    open spec fn deep_view(&self) -> ActualRepoView {
        ActualRepoView {
            repo: self.repo.deep_view(),
            teams: self.teams.deep_view(),
            collaborators: self.collaborators.deep_view(),
            protected: self.protected.deep_view(),
            branches: self.branches.deep_view(),
        }
    }
}

/// The access to a new repository: of the teams, then of the bots and the members.
pub open spec fn initial_permissions(repo: team_data::RepoView) -> Seq<
    (RepoCollaboratorView, RepoPermission),
> {
    team_grants(repo).map_values(
        |grant: (Seq<char>, RepoPermission)| (RepoCollaboratorView::Team(grant.0), grant.1),
    ) + user_grants(repo).map_values(
        |grant: (Seq<char>, RepoPermission)| (RepoCollaboratorView::User(grant.0), grant.1),
    )
}

/// The protections of the branches of a new repository.
pub open spec fn initial_protections(repo: team_data::RepoView) -> Seq<
    (Seq<char>, BranchProtectionView),
> {
    repo.branches.map_values(
        |branch: team_data::BranchView| (branch.name, wanted_protection(repo, branch)),
    )
}

/// The change of the description that a repository needs: from what is there, if anything is,
/// to the wanted one.
pub open spec fn description_diff(wanted: Seq<char>, actual: Option<Seq<char>>) -> Option<
    (Option<Seq<char>>, Seq<char>),
> {
    if actual == Some(wanted) {
        None
    } else {
        Some((actual, wanted))
    }
}

/// What is to be done about a repository, given what is there of it.
pub open spec fn repo_diff(
    wanted: team_data::RepoView,
    actual: Option<ActualRepoView>,
) -> RepoDiffView {
    match actual {
        None => RepoDiffView::Create(
            CreateRepoDiffView {
                org: wanted.org,
                name: wanted.name,
                description: wanted.description,
                permissions: initial_permissions(wanted),
                branch_protections: initial_protections(wanted),
            },
        ),
        Some(actual) => RepoDiffView::Update(
            UpdateRepoDiffView {
                org: wanted.org,
                name: actual.repo.name,
                name_diff: if actual.repo.name == wanted.name {
                    None
                } else {
                    Some(wanted.name)
                },
                description_diff: description_diff(wanted.description, actual.repo.description),
                permission_diffs: permission_diffs(wanted, actual.teams, actual.collaborators),
                branch_protection_diffs: branch_protection_diffs(
                    wanted,
                    actual.branches,
                    actual.protected,
                ),
            },
        ),
    }
}

/// Tells whether a repository has the wanted description.
pub(crate) fn has_description(repo: &Repo, wanted: &String) -> (same: bool)
    ensures
        same == (repo.deep_view().description == Some(wanted@)),
{
    match &repo.description {
        Some(description) => *description == *wanted,
        None => false,
    }
}

fn create_repo_diff(expected_repo: &team_data::Repo) -> (diff: CreateRepoDiff)
    ensures
        RepoDiffView::Create(diff.deep_view()) == repo_diff(expected_repo.deep_view(), None),
{
    let ghost repo = expected_repo.deep_view();
    let mut permissions: Vec<(RepoCollaborator, RepoPermission)> = Vec::new();
    let teams = wanted_teams(expected_repo);
    let users = wanted_users(expected_repo);
    for i in 0..teams.len()
        invariant
            repo == expected_repo.deep_view(),
            teams.deep_view() == team_grants(repo),
            permissions.len() == i,
            forall|j: int|
                0 <= j < i ==> #[trigger] permissions@[j].deep_view() == initial_permissions(
                    repo,
                )[j],
    {
        permissions.push((RepoCollaborator::Team(teams[i].0.clone()), teams[i].1));
        assert(teams.deep_view()[i as int] == teams@[i as int].deep_view());
    }
    for i in 0..users.len()
        invariant
            repo == expected_repo.deep_view(),
            teams.deep_view() == team_grants(repo),
            users.deep_view() == user_grants(repo),
            permissions.len() == teams.len() + i,
            forall|j: int|
                0 <= j < permissions.len() ==> #[trigger] permissions@[j].deep_view()
                    == initial_permissions(repo)[j],
    {
        permissions.push((RepoCollaborator::User(users[i].0.clone()), users[i].1));
        assert(users.deep_view()[i as int] == users@[i as int].deep_view());
        assert(teams.deep_view().len() == teams.len());
    }
    assert(teams.deep_view().len() == teams.len());
    assert(users.deep_view().len() == users.len());
    assert(permissions.deep_view() =~= initial_permissions(repo));
    let mut branch_protections: Vec<(String, BranchProtection)> = Vec::new();
    for i in 0..expected_repo.branches.len()
        invariant
            repo == expected_repo.deep_view(),
            branch_protections.len() == i,
            forall|j: int|
                0 <= j < i ==> #[trigger] branch_protections@[j].deep_view()
                    == initial_protections(repo)[j],
    {
        let branch = &expected_repo.branches[i];
        branch_protections.push((branch.name.clone(), branch_protection(expected_repo, branch)));
    }
    assert(branch_protections.deep_view() =~= initial_protections(repo));
    CreateRepoDiff {
        org: expected_repo.org.clone(),
        name: expected_repo.name.clone(),
        description: expected_repo.description.clone(),
        permissions,
        branch_protections,
    }
}

impl SyncGitHub {
    /// Compares a repository with what is there of it.
    pub fn diff_repo(&self, expected_repo: &team_data::Repo, actual: &Option<ActualRepo>) -> (diff:
        RepoDiff)
        requires
            actual matches Some(actual) ==> actual.branches.len() == expected_repo.branches.len(),
        ensures
            diff.deep_view() == repo_diff(expected_repo.deep_view(), actual.deep_view()),
            match diff {
                RepoDiff::Create(create) => {
                    &&& actual is None
                    &&& create.org@ == expected_repo.org@
                    &&& create.name@ == expected_repo.name@
                },
                RepoDiff::Update(update) => {
                    &&& actual is Some
                    &&& update.org@ == expected_repo.org@
                    &&& update.name@ == actual->0.repo.name@
                },
            },
    {
        match actual {
            None => RepoDiff::Create(create_repo_diff(expected_repo)),
            Some(actual) => {
                let permission_diffs = self.diff_permissions(
                    expected_repo,
                    &actual.teams,
                    &actual.collaborators,
                );
                let branch_protection_diffs = self.diff_branch_protections(
                    expected_repo,
                    &actual.branches,
                    &actual.protected,
                );
                let name_diff = if actual.repo.name != expected_repo.name {
                    Some(expected_repo.name.clone())
                } else {
                    None
                };
                let description_diff = if has_description(
                    &actual.repo,
                    &expected_repo.description,
                ) {
                    None
                } else {
                    let old_description = match &actual.repo.description {
                        Some(description) => Some(description.clone()),
                        None => None,
                    };
                    Some((old_description, expected_repo.description.clone()))
                };
                RepoDiff::Update(
                    UpdateRepoDiff {
                        org: expected_repo.org.clone(),
                        name: actual.repo.name.clone(),
                        name_diff,
                        description_diff,
                        permission_diffs,
                        branch_protection_diffs,
                    },
                )
            },
        }
    }
}

} // verus!
