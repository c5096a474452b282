//! Laws about the views: what the library is proved to do with views, it does with the values.
use vstd::prelude::*;
use vstd::std_specs::cmp::PartialEqSpec;

use crate::api::{
    BranchProtection, Check, PullRequestReviews, Repo, RepoPermission, RepoTeam, RepoUser,
    RequiredStatusChecks, Restrictions, Team, TeamMember, TeamPrivacy, TeamRole, UserRestriction,
};
use crate::branches::{BranchState, BranchStateView};
use crate::call::{Reply, ReplyView, Request, RequestView};
use crate::diff::{
    BranchProtectionDiff, BranchProtectionDiffOperation, BranchProtectionDiffOperationView,
    CreateRepoDiff, CreateTeamDiff, DeleteTeamDiff, Diff, EditTeamDiff, MemberDiff,
    RepoCollaborator, RepoCollaboratorView, RepoDiff, RepoDiffView, RepoPermissionAssignmentDiff,
    TeamDiff, TeamDiffView, UpdateRepoDiff,
};
use crate::log::LogLine;
use crate::repos::ActualRepo;
use crate::sync::SyncGitHub;
use crate::team_data::{self, Bot};
use crate::teams::ActualTeam;

verus! {

/// The views of the teams of the team repository hold what the teams hold.
pub proof fn law_team_views(
    team: team_data::Team,
    github: team_data::TeamGitHub,
    mirror: team_data::GitHubTeam,
)
    ensures
        team.deep_view().github == team.github.deep_view(),
        github.deep_view().teams == github.teams.deep_view(),
        mirror.deep_view().org == mirror.org@,
        mirror.deep_view().name == mirror.name@,
        mirror.deep_view().members == mirror.members@,
{
}

/// The views of the repositories of the team repository hold what the repositories hold.
pub proof fn law_repo_views(
    repo: team_data::Repo,
    team: team_data::RepoTeam,
    member: team_data::RepoMember,
    branch: team_data::Branch,
)
    ensures
        repo.deep_view().org == repo.org@,
        repo.deep_view().name == repo.name@,
        repo.deep_view().description == repo.description@,
        repo.deep_view().bots == repo.bots@,
        repo.deep_view().teams == repo.teams.deep_view(),
        repo.deep_view().members == repo.members.deep_view(),
        repo.deep_view().branches == repo.branches.deep_view(),
        team.deep_view().name == team.name@,
        team.deep_view().permission == team.permission,
        member.deep_view().name == member.name@,
        member.deep_view().permission == member.permission,
        branch.deep_view().name == branch.name@,
        branch.deep_view().ci_checks == branch.ci_checks.deep_view(),
        branch.deep_view().dismiss_stale_review == branch.dismiss_stale_review,
{
}

/// The view of the wanted state holds its teams, its repositories, the owners of its organizations,
/// and the usernames of exactly the users that it knows.
pub proof fn law_sync_view(
    sync: SyncGitHub,
    user: usize,
)
    ensures
        sync.deep_view().teams == sync.teams.deep_view(),
        sync.deep_view().repos == sync.repos.deep_view(),
        sync.deep_view().org_owners == sync.org_owners.deep_view(),
        sync.deep_view().usernames.contains_key(user) <==> sync.usernames_cache@.contains_key(user),
        sync.usernames_cache@.contains_key(user) ==> sync.deep_view().usernames[user]
            == sync.usernames_cache@[user]@,
{
}

/// The views of what GitHub holds of teams and repositories hold the same.
pub proof fn law_api_views(
    team: Team,
    member: TeamMember,
    repo: Repo,
    repo_team: RepoTeam,
    repo_user: RepoUser,
)
    ensures
        team.deep_view().name == team.name@,
        team.deep_view().description == team.description@,
        team.deep_view().privacy == team.privacy,
        member.deep_view().username == member.username@,
        member.deep_view().role == member.role,
        repo.deep_view().org == repo.org@,
        repo.deep_view().name == repo.name@,
        repo.deep_view().description == repo.description.deep_view(),
        repo.deep_view().default_branch == repo.default_branch@,
        repo_team.deep_view().name == repo_team.name@,
        repo_team.deep_view().permission == repo_team.permission,
        repo_user.deep_view().name == repo_user.name@,
        repo_user.deep_view().permission == repo_user.permission,
{
}

/// The view of a protection holds everything that the protection holds.
pub proof fn law_protection_views(
    protection: BranchProtection,
    required: RequiredStatusChecks,
    check: Check,
    reviews: PullRequestReviews,
    restrictions: Restrictions,
    user: UserRestriction,
)
    ensures
        protection.deep_view().required_status_checks
            == protection.required_status_checks.deep_view(),
        protection.deep_view().enforce_admins == protection.enforce_admins,
        protection.deep_view().required_pull_request_reviews
            == protection.required_pull_request_reviews.deep_view(),
        protection.deep_view().restrictions == protection.restrictions.deep_view(),
        required.deep_view().strict == required.strict,
        required.deep_view().checks == required.checks.deep_view(),
        check.deep_view().context == check.context@,
        reviews.deep_view().dismissal_restrictions == reviews.dismissal_restrictions.deep_view(),
        reviews.deep_view().dismiss_stale_reviews == reviews.dismiss_stale_reviews,
        reviews.deep_view().required_approving_review_count
            == reviews.required_approving_review_count,
        restrictions.deep_view().users == restrictions.users.deep_view(),
        restrictions.deep_view().teams == restrictions.teams.deep_view(),
        user.deep_view()->Name_0 == user->Name_0@,
{
}

/// What was read of a team, of a repository and of a branch has the view of its parts.
pub proof fn law_actual_views(
    team: ActualTeam,
    repo: ActualRepo,
    state: BranchState,
)
    ensures
        team.deep_view().team == team.team.deep_view(),
        team.deep_view().members == team.members.deep_view(),
        repo.deep_view().repo == repo.repo.deep_view(),
        repo.deep_view().teams == repo.teams.deep_view(),
        repo.deep_view().collaborators == repo.collaborators.deep_view(),
        repo.deep_view().protected == repo.protected.deep_view(),
        repo.deep_view().branches == repo.branches.deep_view(),
        state matches BranchState::Missing { head } ==> state.deep_view() == (
        BranchStateView::Missing { head: head@ }),
        state matches BranchState::Present { protection } ==> state.deep_view() == (
        BranchStateView::Present { protection: protection.deep_view() }),
{
}

/// The views of diffs of teams hold what the diffs hold.
pub proof fn law_team_diff_views(
    diff: TeamDiff,
    create: CreateTeamDiff,
    edit: EditTeamDiff,
    delete: DeleteTeamDiff,
)
    ensures
        diff matches TeamDiff::Create(inner) ==> diff.deep_view()
            == TeamDiffView::Create(inner.deep_view()),
        diff matches TeamDiff::Edit(inner) ==> diff.deep_view()
            == TeamDiffView::Edit(inner.deep_view()),
        diff matches TeamDiff::Delete(inner) ==> diff.deep_view()
            == TeamDiffView::Delete(inner.deep_view()),
        create.deep_view().org == create.org@,
        create.deep_view().name == create.name@,
        create.deep_view().description == create.description@,
        create.deep_view().privacy == create.privacy,
        create.deep_view().members == create.members.deep_view(),
        edit.deep_view().org == edit.org@,
        edit.deep_view().name == edit.name@,
        edit.deep_view().name_diff == edit.name_diff.deep_view(),
        edit.deep_view().description_diff == edit.description_diff.deep_view(),
        edit.deep_view().privacy_diff == edit.privacy_diff,
        edit.deep_view().member_diffs == edit.member_diffs.deep_view(),
        delete.deep_view().org == delete.org@,
        delete.deep_view().name == delete.name@,
{
}

/// The views of diffs of repositories hold what the diffs hold.
pub proof fn law_repo_diff_views(
    diff: RepoDiff,
    create: CreateRepoDiff,
    update: UpdateRepoDiff,
    all: Diff,
)
    ensures
        diff matches RepoDiff::Create(inner) ==> diff.deep_view()
            == RepoDiffView::Create(inner.deep_view()),
        diff matches RepoDiff::Update(inner) ==> diff.deep_view()
            == RepoDiffView::Update(inner.deep_view()),
        create.deep_view().org == create.org@,
        create.deep_view().name == create.name@,
        create.deep_view().description == create.description@,
        create.deep_view().permissions == create.permissions.deep_view(),
        create.deep_view().branch_protections == create.branch_protections.deep_view(),
        update.deep_view().org == update.org@,
        update.deep_view().name == update.name@,
        update.deep_view().name_diff == update.name_diff.deep_view(),
        update.deep_view().description_diff == update.description_diff.deep_view(),
        update.deep_view().permission_diffs == update.permission_diffs.deep_view(),
        update.deep_view().branch_protection_diffs == update.branch_protection_diffs.deep_view(),
        all.deep_view().team_diffs == all.team_diffs.deep_view(),
        all.deep_view().repo_diffs == all.repo_diffs.deep_view(),
{
}

/// The views of changes of access and of protections hold what the changes hold.
pub proof fn law_change_views(
    access: RepoPermissionAssignmentDiff,
    collaborator: RepoCollaborator,
    protection: BranchProtectionDiff,
    operation: BranchProtectionDiffOperation,
)
    ensures
        access.deep_view().collaborator == access.collaborator.deep_view(),
        access.deep_view().diff == access.diff,
        collaborator matches RepoCollaborator::Team(inner) ==> collaborator.deep_view()
            == RepoCollaboratorView::Team(inner@),
        collaborator matches RepoCollaborator::User(inner) ==> collaborator.deep_view()
            == RepoCollaboratorView::User(inner@),
        protection.deep_view().name == protection.name@,
        protection.deep_view().operation == protection.operation.deep_view(),
        operation matches BranchProtectionDiffOperation::CreateWithBranch(first, second)
            ==> operation.deep_view()
            == BranchProtectionDiffOperationView::CreateWithBranch(first.deep_view(), second@),
        operation matches BranchProtectionDiffOperation::Create(inner) ==> operation.deep_view()
            == BranchProtectionDiffOperationView::Create(inner.deep_view()),
        operation matches BranchProtectionDiffOperation::Update(first, second)
            ==> operation.deep_view()
            == BranchProtectionDiffOperationView::Update(first.deep_view(), second.deep_view()),
        operation is Delete ==> operation.deep_view() is Delete,
{
}

/// The view of a call names and sets what the call names and sets.
pub proof fn law_request_view(request: Request)
    ensures
        request matches Request::OrgTeams { org } ==> request.deep_view() == (
        RequestView::OrgTeams { org: org@ }),
        request matches Request::Team { org, name } ==> request.deep_view() == (
        RequestView::Team { org: org@, name: name@ }),
        request matches Request::TeamMemberships { org, of_team } ==> request.deep_view() == (
        RequestView::TeamMemberships { org: org@, of_team: of_team.deep_view() }),
        request matches Request::Repo { org, name } ==> request.deep_view() == (
        RequestView::Repo { org: org@, name: name@ }),
        request matches Request::RepoTeams { org, repo } ==> request.deep_view() == (
        RequestView::RepoTeams { org: org@, repo: repo@ }),
        request matches Request::RepoCollaborators { org, repo } ==> request.deep_view() == (
        RequestView::RepoCollaborators { org: org@, repo: repo@ }),
        request matches Request::ProtectedBranches { org, repo } ==> request.deep_view() == (
        RequestView::ProtectedBranches { org: org@, repo: repo@ }),
        request matches Request::Branch { org, repo, branch } ==> request.deep_view() == (
        RequestView::Branch { org: org@, repo: repo@, branch: branch@ }),
        request matches Request::BranchProtection { org, repo, branch } ==> request.deep_view() == (
        RequestView::BranchProtection { org: org@, repo: repo@, branch: branch@ }),
        request matches Request::CreateTeam {
            org,
            name,
            description,
            privacy,
        } ==> request.deep_view() == (
        RequestView::CreateTeam {
            org: org@,
            name: name@,
            description: description@,
            privacy,
        }),
        request matches Request::EditTeam {
            org,
            name,
            new_name,
            new_description,
            new_privacy,
        } ==> request.deep_view() == (
        RequestView::EditTeam {
            org: org@,
            name: name@,
            new_name: new_name.deep_view(),
            new_description: new_description.deep_view(),
            new_privacy: new_privacy,
        }),
        request matches Request::DeleteTeam { org, name } ==> request.deep_view() == (
        RequestView::DeleteTeam { org: org@, name: name@ }),
        request matches Request::SetTeamMembership {
            org,
            team,
            user,
            role,
        } ==> request.deep_view() == (
        RequestView::SetTeamMembership { org: org@, team: team@, user: user@, role }),
        request matches Request::RemoveTeamMembership {
            org,
            team,
            user,
        } ==> request.deep_view() == (
        RequestView::RemoveTeamMembership { org: org@, team: team@, user: user@ }),
        request matches Request::CreateRepo { org, name, description } ==> request.deep_view() == (
        RequestView::CreateRepo { org: org@, name: name@, description: description@ }),
        request matches Request::EditRepo { org, name, description } ==> request.deep_view() == (
        RequestView::EditRepo { org: org@, name: name@, description: description@ }),
        request matches Request::UpdateTeamRepoPermissions {
            org,
            repo,
            team,
            permission,
        } ==> request.deep_view() == (
        RequestView::UpdateTeamRepoPermissions {
            org: org@,
            repo: repo@,
            team: team@,
            permission,
        }),
        request matches Request::UpdateUserRepoPermissions {
            org,
            repo,
            user,
            permission,
        } ==> request.deep_view() == (
        RequestView::UpdateUserRepoPermissions {
            org: org@,
            repo: repo@,
            user: user@,
            permission,
        }),
        request matches Request::RemoveTeamFromRepo { org, repo, team } ==> request.deep_view() == (
        RequestView::RemoveTeamFromRepo { org: org@, repo: repo@, team: team@ }),
        request matches Request::RemoveCollaboratorFromRepo {
            org,
            repo,
            user,
        } ==> request.deep_view() == (
        RequestView::RemoveCollaboratorFromRepo { org: org@, repo: repo@, user: user@ }),
        request matches Request::CreateBranch {
            org,
            repo,
            branch,
            commit,
        } ==> request.deep_view() == (
        RequestView::CreateBranch { org: org@, repo: repo@, branch: branch@, commit: commit@ }),
        request matches Request::UpdateBranchProtection {
            org,
            repo,
            branch,
            protection,
        } ==> request.deep_view() == (
        RequestView::UpdateBranchProtection {
            org: org@,
            repo: repo@,
            branch: branch@,
            protection: protection.deep_view(),
        }),
        request matches Request::DeleteBranchProtection {
            org,
            repo,
            branch,
        } ==> request.deep_view() == (
        RequestView::DeleteBranchProtection { org: org@, repo: repo@, branch: branch@ }),
{
}

/// The view of a reply holds what the reply holds.
pub proof fn law_reply_view(reply: Reply)
    ensures
        reply matches Reply::OrgTeams(inner) ==> reply.deep_view()
            == ReplyView::OrgTeams(inner.deep_view()),
        reply matches Reply::Team(inner) ==> reply.deep_view()
            == ReplyView::Team(inner.deep_view()),
        reply matches Reply::TeamMemberships(inner) ==> reply.deep_view()
            == ReplyView::TeamMemberships(inner.deep_view()),
        reply matches Reply::Repo(inner) ==> reply.deep_view()
            == ReplyView::Repo(inner.deep_view()),
        reply matches Reply::RepoTeams(inner) ==> reply.deep_view()
            == ReplyView::RepoTeams(inner.deep_view()),
        reply matches Reply::RepoCollaborators(inner) ==> reply.deep_view()
            == ReplyView::RepoCollaborators(inner.deep_view()),
        reply matches Reply::ProtectedBranches(inner) ==> reply.deep_view()
            == ReplyView::ProtectedBranches(inner.deep_view()),
        reply matches Reply::Branch(inner) ==> reply.deep_view()
            == ReplyView::Branch(inner.deep_view()),
        reply matches Reply::BranchProtection(inner) ==> reply.deep_view()
            == ReplyView::BranchProtection(inner.deep_view()),
        reply matches Reply::CreatedRepo(inner) ==> reply.deep_view()
            == ReplyView::CreatedRepo(inner.deep_view()),
        reply matches Reply::ProtectionUpdated(inner) ==> reply.deep_view()
            == ReplyView::ProtectionUpdated(inner),
        reply is Done ==> reply.deep_view() is Done,
{
}

/// The view of a line of the log has its level and its message.
pub proof fn law_line_view(line: LogLine)
    ensures
        line.deep_view().level == line.level,
        line.deep_view().message == line.message@,
{
}

/// Values without text or lists are their own views.
pub proof fn law_plain_views(
    bot: Bot,
    named: team_data::RepoPermission,
    permission: RepoPermission,
    role: TeamRole,
    privacy: TeamPrivacy,
    diff: MemberDiff,
)
    ensures
        bot.deep_view() == bot,
        named.deep_view() == named,
        permission.deep_view() == permission,
        role.deep_view() == role,
        privacy.deep_view() == privacy,
        diff.deep_view() == diff,
{
}

/// Two protections are equal if and only if they ask for the same checks, equally strictly, bind
/// administrators equally, need the same reviews, and let the same users and teams push.
pub proof fn law_equal_protections(
    a: BranchProtection,
    b: BranchProtection,
)
    ensures
        a.eq_spec(&b) <==> {
            let a_reviews = a.required_pull_request_reviews;
            let b_reviews = b.required_pull_request_reviews;
            &&& a.required_status_checks.strict == b.required_status_checks.strict
            &&& a.required_status_checks.checks.deep_view()
                == b.required_status_checks.checks.deep_view()
            &&& a.enforce_admins == b.enforce_admins
            &&& a_reviews.dismissal_restrictions.deep_view()
                == b_reviews.dismissal_restrictions.deep_view()
            &&& a_reviews.dismiss_stale_reviews == b_reviews.dismiss_stale_reviews
            &&& a_reviews.required_approving_review_count
                == b_reviews.required_approving_review_count
            &&& a.restrictions.users.deep_view() == b.restrictions.users.deep_view()
            &&& a.restrictions.teams.deep_view() == b.restrictions.teams.deep_view()
        },
{
}

} // verus!
