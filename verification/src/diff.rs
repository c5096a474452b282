//! The differences between the team repository and GitHub.
use vstd::prelude::*;

use crate::api::{BranchProtection, BranchProtectionView, RepoPermission, TeamPrivacy, TeamRole};

verus! {

/// A diff between the team repository and the state on GitHub.
#[derive(PartialEq, Debug)]
pub struct Diff {
    pub team_diffs: Vec<TeamDiff>,
    pub repo_diffs: Vec<RepoDiff>,
}

pub struct DiffView {
    pub team_diffs: Seq<TeamDiffView>,
    pub repo_diffs: Seq<RepoDiffView>,
}

impl DeepView for Diff {
    type V = DiffView;

    open spec fn deep_view(&self) -> DiffView {
        DiffView {
            team_diffs: self.team_diffs.deep_view(),
            repo_diffs: self.repo_diffs.deep_view(),
        }
    }
}

/// What is to be done about a repository.
#[derive(PartialEq, Debug)]
pub enum RepoDiff {
    Create(CreateRepoDiff),
    Update(UpdateRepoDiff),
}

pub enum RepoDiffView {
    Create(CreateRepoDiffView),
    Update(UpdateRepoDiffView),
}

impl DeepView for RepoDiff {
    type V = RepoDiffView;

    open spec fn deep_view(&self) -> RepoDiffView {
        match self {
            RepoDiff::Create(create) => RepoDiffView::Create(create.deep_view()),
            RepoDiff::Update(update) => RepoDiffView::Update(update.deep_view()),
        }
    }
}

/// A repository that is to be created, with the access to it and its protected branches.
#[derive(PartialEq, Debug)]
pub struct CreateRepoDiff {
    pub org: String,
    pub name: String,
    pub description: String,
    pub permissions: Vec<(RepoCollaborator, RepoPermission)>,
    pub branch_protections: Vec<(String, BranchProtection)>,
}

pub struct CreateRepoDiffView {
    pub org: Seq<char>,
    pub name: Seq<char>,
    pub description: Seq<char>,
    pub permissions: Seq<(RepoCollaboratorView, RepoPermission)>,
    pub branch_protections: Seq<(Seq<char>, BranchProtectionView)>,
}

impl DeepView for CreateRepoDiff {
    type V = CreateRepoDiffView;

    open spec fn deep_view(&self) -> CreateRepoDiffView {
        CreateRepoDiffView {
            org: self.org@,
            name: self.name@,
            description: self.description@,
            permissions: self.permissions.deep_view(),
            branch_protections: self.branch_protections.deep_view(),
        }
    }
}

/// What is to be changed in a repository that exists.
#[derive(PartialEq, Debug)]
pub struct UpdateRepoDiff {
    pub org: String,
    pub name: String,
    pub name_diff: Option<String>,
    pub description_diff: Option<(Option<String>, String)>,
    pub permission_diffs: Vec<RepoPermissionAssignmentDiff>,
    pub branch_protection_diffs: Vec<BranchProtectionDiff>,
}

pub struct UpdateRepoDiffView {
    pub org: Seq<char>,
    pub name: Seq<char>,
    pub name_diff: Option<Seq<char>>,
    pub description_diff: Option<(Option<Seq<char>>, Seq<char>)>,
    pub permission_diffs: Seq<RepoPermissionAssignmentDiffView>,
    pub branch_protection_diffs: Seq<BranchProtectionDiffView>,
}

impl DeepView for UpdateRepoDiff {
    type V = UpdateRepoDiffView;

    open spec fn deep_view(&self) -> UpdateRepoDiffView {
        UpdateRepoDiffView {
            org: self.org@,
            name: self.name@,
            name_diff: self.name_diff.deep_view(),
            description_diff: self.description_diff.deep_view(),
            permission_diffs: self.permission_diffs.deep_view(),
            branch_protection_diffs: self.branch_protection_diffs.deep_view(),
        }
    }
}

/// A change in the access of a team or a user to a repository.
#[derive(PartialEq, Debug)]
pub struct RepoPermissionAssignmentDiff {
    pub collaborator: RepoCollaborator,
    pub diff: RepoPermissionDiff,
}

pub struct RepoPermissionAssignmentDiffView {
    pub collaborator: RepoCollaboratorView,
    pub diff: RepoPermissionDiff,
}

impl DeepView for RepoPermissionAssignmentDiff {
    type V = RepoPermissionAssignmentDiffView;

    open spec fn deep_view(&self) -> RepoPermissionAssignmentDiffView {
        RepoPermissionAssignmentDiffView {
            collaborator: self.collaborator.deep_view(),
            diff: self.diff,
        }
    }
}

/// How an access changes: it is given, goes from one level to another, or is taken away.
#[derive(Clone, Copy, PartialEq, Eq, Structural, Debug)]
pub enum RepoPermissionDiff {
    Create(RepoPermission),
    Update(RepoPermission, RepoPermission),
    Delete(RepoPermission),
}

/// Who has access to a repository.
#[derive(PartialEq, Debug)]
pub enum RepoCollaborator {
    Team(String),
    User(String),
}

pub enum RepoCollaboratorView {
    Team(Seq<char>),
    User(Seq<char>),
}

impl DeepView for RepoCollaborator {
    type V = RepoCollaboratorView;

    open spec fn deep_view(&self) -> RepoCollaboratorView {
        match self {
            RepoCollaborator::Team(name) => RepoCollaboratorView::Team(name@),
            RepoCollaborator::User(name) => RepoCollaboratorView::User(name@),
        }
    }
}

impl Clone for RepoCollaborator {
    fn clone(&self) -> (copy: Self)
        ensures
            copy.deep_view() == self.deep_view(),
    {
        match self {
            RepoCollaborator::Team(name) => RepoCollaborator::Team(name.clone()),
            RepoCollaborator::User(name) => RepoCollaborator::User(name.clone()),
        }
    }
}

/// A change in the protection of a branch.
#[derive(PartialEq, Debug)]
pub struct BranchProtectionDiff {
    pub name: String,
    pub operation: BranchProtectionDiffOperation,
}

pub struct BranchProtectionDiffView {
    pub name: Seq<char>,
    pub operation: BranchProtectionDiffOperationView,
}

impl DeepView for BranchProtectionDiff {
    type V = BranchProtectionDiffView;

    open spec fn deep_view(&self) -> BranchProtectionDiffView {
        BranchProtectionDiffView {
            name: self.name@,
            operation: self.operation.deep_view(),
        }
    }
}

/// What is to be done about the protection of a branch. `CreateWithBranch` holds the
/// commit at the head of the main branch, at which the branch is to be created.
#[derive(PartialEq, Debug)]
pub enum BranchProtectionDiffOperation {
    CreateWithBranch(BranchProtection, String),
    Create(BranchProtection),
    Update(BranchProtection, BranchProtection),
    Delete,
}

pub enum BranchProtectionDiffOperationView {
    CreateWithBranch(BranchProtectionView, Seq<char>),
    Create(BranchProtectionView),
    Update(BranchProtectionView, BranchProtectionView),
    Delete,
}

impl DeepView for BranchProtectionDiffOperation {
    type V = BranchProtectionDiffOperationView;

    open spec fn deep_view(&self) -> BranchProtectionDiffOperationView {
        match self {
            BranchProtectionDiffOperation::CreateWithBranch(protection, commit) =>
                BranchProtectionDiffOperationView::CreateWithBranch(
                    protection.deep_view(),
                    commit@,
                ),
            BranchProtectionDiffOperation::Create(protection) =>
                BranchProtectionDiffOperationView::Create(
                    protection.deep_view(),
                ),
            BranchProtectionDiffOperation::Update(old_protection, new_protection) =>
                BranchProtectionDiffOperationView::Update(
                    old_protection.deep_view(),
                    new_protection.deep_view(),
                ),
            BranchProtectionDiffOperation::Delete => BranchProtectionDiffOperationView::Delete,
        }
    }
}

/// What is to be done about a team.
#[derive(PartialEq, Debug)]
pub enum TeamDiff {
    Create(CreateTeamDiff),
    Edit(EditTeamDiff),
    Delete(DeleteTeamDiff),
}

pub enum TeamDiffView {
    Create(CreateTeamDiffView),
    Edit(EditTeamDiffView),
    Delete(DeleteTeamDiffView),
}

impl DeepView for TeamDiff {
    type V = TeamDiffView;

    open spec fn deep_view(&self) -> TeamDiffView {
        match self {
            TeamDiff::Create(create) => TeamDiffView::Create(create.deep_view()),
            TeamDiff::Edit(edit) => TeamDiffView::Edit(edit.deep_view()),
            TeamDiff::Delete(delete) => TeamDiffView::Delete(delete.deep_view()),
        }
    }
}

/// A team that is to be created, with its members.
#[derive(PartialEq, Debug)]
pub struct CreateTeamDiff {
    pub org: String,
    pub name: String,
    pub description: String,
    pub privacy: TeamPrivacy,
    pub members: Vec<(String, TeamRole)>,
}

pub struct CreateTeamDiffView {
    pub org: Seq<char>,
    pub name: Seq<char>,
    pub description: Seq<char>,
    pub privacy: TeamPrivacy,
    pub members: Seq<(Seq<char>, TeamRole)>,
}

impl DeepView for CreateTeamDiff {
    type V = CreateTeamDiffView;

    open spec fn deep_view(&self) -> CreateTeamDiffView {
        CreateTeamDiffView {
            org: self.org@,
            name: self.name@,
            description: self.description@,
            privacy: self.privacy,
            members: self.members.deep_view(),
        }
    }
}

/// What is to be changed in a team that exists.
#[derive(PartialEq, Debug)]
pub struct EditTeamDiff {
    pub org: String,
    pub name: String,
    pub name_diff: Option<String>,
    pub description_diff: Option<(String, String)>,
    pub privacy_diff: Option<(TeamPrivacy, TeamPrivacy)>,
    pub member_diffs: Vec<(String, MemberDiff)>,
}

pub struct EditTeamDiffView {
    pub org: Seq<char>,
    pub name: Seq<char>,
    pub name_diff: Option<Seq<char>>,
    pub description_diff: Option<(Seq<char>, Seq<char>)>,
    pub privacy_diff: Option<(TeamPrivacy, TeamPrivacy)>,
    pub member_diffs: Seq<(Seq<char>, MemberDiff)>,
}

impl DeepView for EditTeamDiff {
    type V = EditTeamDiffView;

    open spec fn deep_view(&self) -> EditTeamDiffView {
        EditTeamDiffView {
            org: self.org@,
            name: self.name@,
            name_diff: self.name_diff.deep_view(),
            description_diff: self.description_diff.deep_view(),
            privacy_diff: self.privacy_diff,
            member_diffs: self.member_diffs.deep_view(),
        }
    }
}

/// What is to be done about one member of a team.
#[derive(Clone, Copy, PartialEq, Eq, Debug)]
pub enum MemberDiff {
    Create(TeamRole),
    ChangeRole((TeamRole, TeamRole)),
    Delete,
    Noop,
}

impl DeepView for MemberDiff {
    type V = MemberDiff;

    open spec fn deep_view(&self) -> MemberDiff {
        *self
    }
}

/// A team that is to be deleted.
#[derive(PartialEq, Debug)]
pub struct DeleteTeamDiff {
    pub org: String,
    pub name: String,
}

pub struct DeleteTeamDiffView {
    pub org: Seq<char>,
    pub name: Seq<char>,
}

impl DeepView for DeleteTeamDiff {
    type V = DeleteTeamDiffView;

    open spec fn deep_view(&self) -> DeleteTeamDiffView {
        DeleteTeamDiffView {
            org: self.org@,
            name: self.name@,
        }
    }
}

} // verus!
