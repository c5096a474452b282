//! Bringing the repositories on GitHub to the wanted state, one call at a time.
//!
//! A run names the call that it waits for; handed the reply, it goes on to the next call. A
//! call that fails ends it.
use vstd::prelude::*;

use crate::api::{
    Repo, RepoPermission, RepoTeam, RepoTeamView, RepoUser, RepoUserView, RepoView,
};
use crate::branches::{protections_to_remove, stray_protections};
use crate::call::{answers, Reply, ReplyView, Request, RequestView};
use crate::log::{call_lines, debug, no_lines, push_debug, reply_lines, LogLine, LogLineView};
use crate::permissions::{
    actual_teams, actual_users, grant_names, stray_teams, stray_users, team_grants,
    teams_to_remove, unclaimed_grants, user_grants, wanted_teams, wanted_users,
};
use crate::repos::has_description;
use crate::rules::{branch_protection, wanted_protection};
use crate::sync::{SyncGitHub, SyncGitHubView};
use crate::team_data;
use crate::text::cat4;

verus! {

/// The call that gives a team access to a repository.
pub open spec fn grant_team(
    repo: team_data::RepoView,
    grant: (Seq<char>, RepoPermission),
) -> RequestView {
    RequestView::UpdateTeamRepoPermissions {
        org: repo.org,
        repo: repo.name,
        team: grant.0,
        permission: grant.1,
    }
}

/// The call that gives a user access to a repository.
pub open spec fn grant_user(
    repo: team_data::RepoView,
    grant: (Seq<char>, RepoPermission),
) -> RequestView {
    RequestView::UpdateUserRepoPermissions {
        org: repo.org,
        repo: repo.name,
        user: grant.0,
        permission: grant.1,
    }
}

/// The call that takes the access to a repository away from a team.
pub open spec fn revoke_team(
    repo: team_data::RepoView,
    grant: (Seq<char>, RepoPermission),
) -> RequestView {
    RequestView::RemoveTeamFromRepo { org: repo.org, repo: repo.name, team: grant.0 }
}

/// The call that takes the access to a repository away from a user.
pub open spec fn revoke_user(
    repo: team_data::RepoView,
    grant: (Seq<char>, RepoPermission),
) -> RequestView {
    RequestView::RemoveCollaboratorFromRepo { org: repo.org, repo: repo.name, user: grant.0 }
}

/// The calls that bring the access to a repository to the wanted state: all wanted access is
/// given anew, whether it is there or not, and then the rest is taken away.
pub open spec fn permission_requests(
    repo: team_data::RepoView,
    teams: Seq<RepoTeamView>,
    users: Seq<RepoUserView>,
) -> Seq<RequestView> {
    team_grants(repo).map_values(|grant: (Seq<char>, RepoPermission)| grant_team(repo, grant))
        + user_grants(repo).map_values(
        |grant: (Seq<char>, RepoPermission)| grant_user(repo, grant),
    ) + stray_teams(repo, teams).map_values(
        |grant: (Seq<char>, RepoPermission)| revoke_team(repo, grant),
    ) + stray_users(repo, users).map_values(
        |grant: (Seq<char>, RepoPermission)| revoke_user(repo, grant),
    )
}

/// What is known while the branches of a repository are protected.
#[derive(Debug)]
pub struct BranchProgress {
    pub repo: Repo,
    /// The protected branches that are not meant to be protected.
    pub stray: Vec<String>,
    /// The head of the main branch, once it was asked for.
    pub head: Option<Option<String>>,
    /// The number of branches that are done.
    pub index: usize,
}

pub struct BranchProgressView {
    pub repo: RepoView,
    pub stray: Seq<Seq<char>>,
    pub head: Option<Option<Seq<char>>>,
    pub index: int,
}

impl DeepView for BranchProgress {
    type V = BranchProgressView;

    open spec fn deep_view(&self) -> BranchProgressView {
        BranchProgressView {
            repo: self.repo.deep_view(),
            stray: self.stray.deep_view(),
            head: self.head.deep_view(),
            index: self.index as int,
        }
    }
}

/// What a run waits for.
#[derive(Debug)]
pub enum SyncStage {
    /// The current repository.
    Repo,
    /// The current repository, which is created.
    CreateRepo,
    /// The change of the description.
    EditRepo { repo: Repo },
    /// The teams with access.
    RepoTeams { repo: Repo },
    /// The people with access.
    RepoCollaborators { repo: Repo, teams: Vec<RepoTeam> },
    /// One of the calls that change the access.
    Permissions { repo: Repo, requests: Vec<Request>, sent: usize },
    /// The protected branches.
    ProtectedBranches { repo: Repo },
    /// The current branch.
    Branch { progress: BranchProgress },
    /// The head of the main branch, at which the current branch is to be created.
    Head { progress: BranchProgress },
    /// The creation of the current branch.
    CreateBranch { progress: BranchProgress },
    /// The protection of the current branch.
    Protection { progress: BranchProgress },
    /// The removal of a protection.
    Unprotect { repo: Repo, stray: Vec<String>, removed: usize },
    /// Nothing: all repositories are done.
    Done,
    /// Nothing: a call failed.
    Failed,
}

pub enum SyncStageView {
    Repo,
    CreateRepo,
    EditRepo { repo: RepoView },
    RepoTeams { repo: RepoView },
    RepoCollaborators { repo: RepoView, teams: Seq<RepoTeamView> },
    Permissions { repo: RepoView, requests: Seq<RequestView>, sent: int },
    ProtectedBranches { repo: RepoView },
    Branch { progress: BranchProgressView },
    Head { progress: BranchProgressView },
    CreateBranch { progress: BranchProgressView },
    Protection { progress: BranchProgressView },
    Unprotect { repo: RepoView, stray: Seq<Seq<char>>, removed: int },
    Done,
    Failed,
}

impl DeepView for SyncStage {
    type V = SyncStageView;

    open spec fn deep_view(&self) -> SyncStageView {
        match self {
            SyncStage::Repo => SyncStageView::Repo,
            SyncStage::CreateRepo => SyncStageView::CreateRepo,
            SyncStage::EditRepo { repo } => SyncStageView::EditRepo { repo: repo.deep_view() },
            SyncStage::RepoTeams { repo } => SyncStageView::RepoTeams { repo: repo.deep_view() },
            SyncStage::RepoCollaborators { repo, teams } => SyncStageView::RepoCollaborators {
                repo: repo.deep_view(),
                teams: teams.deep_view(),
            },
            SyncStage::Permissions { repo, requests, sent } => SyncStageView::Permissions {
                repo: repo.deep_view(),
                requests: requests.deep_view(),
                sent: *sent as int,
            },
            SyncStage::ProtectedBranches { repo } => SyncStageView::ProtectedBranches {
                repo: repo.deep_view(),
            },
            SyncStage::Branch { progress } => SyncStageView::Branch {
                progress: progress.deep_view(),
            },
            SyncStage::Head { progress } => SyncStageView::Head { progress: progress.deep_view() },
            SyncStage::CreateBranch { progress } => SyncStageView::CreateBranch {
                progress: progress.deep_view(),
            },
            SyncStage::Protection { progress } => SyncStageView::Protection {
                progress: progress.deep_view(),
            },
            SyncStage::Unprotect { repo, stray, removed } => SyncStageView::Unprotect {
                repo: repo.deep_view(),
                stray: stray.deep_view(),
                removed: *removed as int,
            },
            SyncStage::Done => SyncStageView::Done,
            SyncStage::Failed => SyncStageView::Failed,
        }
    }
}

/// A synchronization of the repositories that is under way.
pub struct SyncRun<'a> {
    sync: &'a SyncGitHub,
    done: usize,
    stage: SyncStage,
}

pub struct SyncRunView {
    pub sync: SyncGitHubView,
    /// The number of repositories that are done.
    pub done: int,
    pub stage: SyncStageView,
}

impl<'a> DeepView for SyncRun<'a> {
    type V = SyncRunView;

    closed spec fn deep_view(&self) -> SyncRunView {
        SyncRunView {
            sync: self.sync.deep_view(),
            done: self.done as int,
            stage: self.stage.deep_view(),
        }
    }
}

impl SyncRunView {
    /// The repository that is synchronized.
    pub open spec fn repo(self) -> team_data::RepoView {
        self.sync.repos[self.done]
    }

    /// Whether there is a current repository, call and branch where the stage speaks of one.
    pub open spec fn wf(self) -> bool {
        &&& 0 <= self.done <= self.sync.repos.len()
        &&& !(self.stage is Done) ==> self.done < self.sync.repos.len()
        &&& match self.stage {
            SyncStageView::Permissions { requests, sent, .. } => {
                &&& 0 <= sent < requests.len()
                &&& forall|i: int|
                    0 <= i < requests.len() ==> answers(#[trigger] requests[i], ReplyView::Done)
            },
            SyncStageView::Branch { progress }
            | SyncStageView::Head { progress }
            | SyncStageView::Protection { progress } => 0 <= progress.index
                < self.repo().branches.len(),
            SyncStageView::CreateBranch { progress } => 0 <= progress.index
                < self.repo().branches.len() && progress.head is Some && progress.head->0 is Some,
            SyncStageView::Unprotect { stray, removed, .. } => 0 <= removed < stray.len(),
            _ => true,
        }
    }

    /// The call that the run waits for.
    pub open spec fn pending(self) -> Option<RequestView> {
        let wanted = self.repo();
        match self.stage {
            SyncStageView::Repo => Some(RequestView::Repo { org: wanted.org, name: wanted.name }),
            SyncStageView::CreateRepo => Some(
                RequestView::CreateRepo {
                    org: wanted.org,
                    name: wanted.name,
                    description: wanted.description,
                },
            ),
            SyncStageView::EditRepo { repo } => Some(
                RequestView::EditRepo {
                    org: repo.org,
                    name: repo.name,
                    description: wanted.description,
                },
            ),
            SyncStageView::RepoTeams { .. } => Some(
                RequestView::RepoTeams { org: wanted.org, repo: wanted.name },
            ),
            SyncStageView::RepoCollaborators { .. } => Some(
                RequestView::RepoCollaborators { org: wanted.org, repo: wanted.name },
            ),
            SyncStageView::Permissions { requests, sent, .. } => Some(requests[sent]),
            SyncStageView::ProtectedBranches { repo } => Some(
                RequestView::ProtectedBranches { org: repo.org, repo: repo.name },
            ),
            SyncStageView::Branch { progress } => Some(
                RequestView::Branch {
                    org: progress.repo.org,
                    repo: progress.repo.name,
                    branch: wanted.branches[progress.index].name,
                },
            ),
            SyncStageView::Head { progress } => Some(
                RequestView::Branch {
                    org: progress.repo.org,
                    repo: progress.repo.name,
                    branch: progress.repo.default_branch,
                },
            ),
            SyncStageView::CreateBranch { progress } => Some(
                RequestView::CreateBranch {
                    org: progress.repo.org,
                    repo: progress.repo.name,
                    branch: wanted.branches[progress.index].name,
                    commit: progress.head->0->0,
                },
            ),
            SyncStageView::Protection { progress } => Some(
                RequestView::UpdateBranchProtection {
                    org: progress.repo.org,
                    repo: progress.repo.name,
                    branch: wanted.branches[progress.index].name,
                    protection: wanted_protection(wanted, wanted.branches[progress.index]),
                },
            ),
            SyncStageView::Unprotect { repo, stray, removed } => Some(
                RequestView::DeleteBranchProtection {
                    org: repo.org,
                    repo: repo.name,
                    branch: stray[removed],
                },
            ),
            SyncStageView::Done | SyncStageView::Failed => None,
        }
    }

    /// Whether the run can go on with a reply.
    pub open spec fn accepts(self, reply: ReplyView) -> bool {
        self.pending() is Some && answers(self.pending()->0, reply)
    }

    /// The run after its call failed.
    pub open spec fn stopped(self) -> SyncRunView {
        SyncRunView { stage: SyncStageView::Failed, ..self }
    }

    /// The lines that announce the call that the run waits for.
    pub open spec fn call_lines(self) -> Seq<LogLineView> {
        match self.stage {
            SyncStageView::Repo => seq![
                debug("synchronizing repo "@ + self.repo().org + "/"@ + self.repo().name),
            ],
            SyncStageView::Done | SyncStageView::Failed => Seq::empty(),
            _ => call_lines(self.pending()->0),
        }
    }

    /// The lines that tell what came of the call that the run waits for.
    pub open spec fn reply_lines(self, reply: ReplyView) -> Seq<LogLineView> {
        match (self.stage, reply) {
            (SyncStageView::Repo, ReplyView::Repo(Some(repo))) => if repo.description == Some(
                self.repo().description,
            ) {
                seq![debug("repo already exists..."@), debug("repo is in synced state"@)]
            } else {
                seq![debug("repo already exists..."@)]
            },
            (SyncStageView::Done, _) | (SyncStageView::Failed, _) => Seq::empty(),
            _ => reply_lines(self.pending()->0, reply),
        }
    }

    /// Goes on with the current repository, if there is one.
    pub open spec fn at_repo(self) -> SyncRunView {
        SyncRunView {
            stage: if self.done < self.sync.repos.len() {
                SyncStageView::Repo
            } else {
                SyncStageView::Done
            },
            ..self
        }
    }

    /// Goes on with the calls that change the access, if some are left.
    pub open spec fn at_permission(
        self,
        repo: RepoView,
        requests: Seq<RequestView>,
        sent: int,
    ) -> SyncRunView {
        SyncRunView {
            stage: if sent < requests.len() {
                SyncStageView::Permissions { repo, requests, sent }
            } else {
                SyncStageView::ProtectedBranches { repo }
            },
            ..self
        }
    }

    /// Goes on with the removal of protections, if some are left.
    pub open spec fn at_removal(self, repo: RepoView, stray: Seq<Seq<char>>, removed: int) -> Self {
        if removed < stray.len() {
            SyncRunView { stage: SyncStageView::Unprotect { repo, stray, removed }, ..self }
        } else {
            SyncRunView { done: self.done + 1, ..self }.at_repo()
        }
    }

    /// Goes on with the current branch, if there is one.
    pub open spec fn at_branch(self, progress: BranchProgressView) -> SyncRunView {
        if progress.index < self.repo().branches.len() {
            SyncRunView { stage: SyncStageView::Branch { progress }, ..self }
        } else {
            self.at_removal(progress.repo, progress.stray, 0)
        }
    }

    /// Goes on with a branch that is missing, when the head of the main branch is known.
    pub open spec fn at_missing(
        self,
        progress: BranchProgressView,
        head: Option<Seq<char>>,
    ) -> SyncRunView {
        let progress = BranchProgressView { head: Some(head), ..progress };
        SyncRunView {
            stage: if head is Some {
                SyncStageView::CreateBranch { progress }
            } else {
                SyncStageView::Protection { progress }
            },
            ..self
        }
    }

    /// The run after a reply.
    pub open spec fn next(self, reply: ReplyView) -> SyncRunView {
        match (self.stage, reply) {
            (SyncStageView::Repo, ReplyView::Repo(None)) => SyncRunView {
                stage: SyncStageView::CreateRepo,
                ..self
            },
            (SyncStageView::Repo, ReplyView::Repo(Some(repo))) => SyncRunView {
                stage: if repo.description == Some(self.repo().description) {
                    SyncStageView::RepoTeams { repo }
                } else {
                    SyncStageView::EditRepo { repo }
                },
                ..self
            },
            (SyncStageView::CreateRepo, ReplyView::CreatedRepo(repo)) => SyncRunView {
                stage: SyncStageView::RepoTeams { repo },
                ..self
            },
            (SyncStageView::EditRepo { repo }, ReplyView::Done) => SyncRunView {
                stage: SyncStageView::RepoTeams { repo },
                ..self
            },
            (SyncStageView::RepoTeams { repo }, ReplyView::RepoTeams(teams)) => SyncRunView {
                stage: SyncStageView::RepoCollaborators { repo, teams },
                ..self
            },
            (
                SyncStageView::RepoCollaborators { repo, teams },
                ReplyView::RepoCollaborators(users),
            ) => self.at_permission(repo, permission_requests(self.repo(), teams, users), 0),
            (SyncStageView::Permissions { repo, requests, sent }, ReplyView::Done) =>
                self.at_permission(repo, requests, sent + 1),
            (
                SyncStageView::ProtectedBranches { repo },
                ReplyView::ProtectedBranches(protected),
            ) => self.at_branch(
                BranchProgressView {
                    repo,
                    stray: stray_protections(self.repo(), protected),
                    head: None,
                    index: 0,
                },
            ),
            (SyncStageView::Branch { progress }, ReplyView::Branch(Some(_))) => SyncRunView {
                stage: SyncStageView::Protection { progress },
                ..self
            },
            (SyncStageView::Branch { progress }, ReplyView::Branch(None)) => match progress.head {
                Some(head) => self.at_missing(progress, head),
                None => SyncRunView { stage: SyncStageView::Head { progress }, ..self },
            },
            (SyncStageView::Head { progress }, ReplyView::Branch(head)) => self.at_missing(
                progress,
                head,
            ),
            (SyncStageView::CreateBranch { progress }, ReplyView::Done) => SyncRunView {
                stage: SyncStageView::Protection { progress },
                ..self
            },
            (SyncStageView::Protection { progress }, ReplyView::ProtectionUpdated(_)) =>
                self.at_branch(BranchProgressView { index: progress.index + 1, ..progress }),
            (SyncStageView::Unprotect { repo, stray, removed }, ReplyView::Done) =>
                self.at_removal(repo, stray, removed + 1),
            _ => self,
        }
    }
}

/// The start of a synchronization.
pub open spec fn start(sync: SyncGitHubView) -> SyncRunView {
    SyncRunView { sync, done: 0, stage: SyncStageView::Done }.at_repo()
}

/// Lists the calls that bring the access to a repository to the wanted state.
pub(crate) fn list_permission_requests(
    expected_repo: &team_data::Repo,
    teams: &Vec<RepoTeam>,
    users: &Vec<RepoUser>,
) -> (requests: Vec<Request>)
    ensures
        requests.deep_view() == permission_requests(
            expected_repo.deep_view(),
            teams.deep_view(),
            users.deep_view(),
        ),
{
    let ghost repo = expected_repo.deep_view();
    let ghost all = permission_requests(repo, teams.deep_view(), users.deep_view());
    let teams_wanted = wanted_teams(expected_repo);
    let users_wanted = wanted_users(expected_repo);
    let teams_left = teams_to_remove(expected_repo, &actual_teams(teams));
    let users_left = unclaimed_grants(&actual_users(users), &grant_names(&users_wanted));
    let mut requests: Vec<Request> = Vec::new();
    let ghost first = teams_wanted.deep_view();
    let ghost second = users_wanted.deep_view();
    let ghost third = teams_left.deep_view();
    let ghost fourth = users_left.deep_view();
    assert(first.len() == teams_wanted.len() && second.len() == users_wanted.len() && third.len()
        == teams_left.len() && fourth.len() == users_left.len());
    for i in 0..teams_wanted.len()
        invariant
            repo == expected_repo.deep_view(),
            first == teams_wanted.deep_view(),
            first == team_grants(repo),
            all == permission_requests(repo, teams.deep_view(), users.deep_view()),
            requests.len() == i,
            forall|j: int|
                0 <= j < requests.len() ==> #[trigger] requests@[j].deep_view() == all[j],
    {
        requests.push(
            Request::UpdateTeamRepoPermissions {
                org: expected_repo.org.clone(),
                repo: expected_repo.name.clone(),
                team: teams_wanted[i].0.clone(),
                permission: teams_wanted[i].1,
            },
        );
        assert(first[i as int] == teams_wanted@[i as int].deep_view());
    }
    for i in 0..users_wanted.len()
        invariant
            repo == expected_repo.deep_view(),
            first == team_grants(repo),
            second == users_wanted.deep_view(),
            second == user_grants(repo),
            all == permission_requests(repo, teams.deep_view(), users.deep_view()),
            requests.len() == first.len() + i,
            forall|j: int|
                0 <= j < requests.len() ==> #[trigger] requests@[j].deep_view() == all[j],
    {
        requests.push(
            Request::UpdateUserRepoPermissions {
                org: expected_repo.org.clone(),
                repo: expected_repo.name.clone(),
                user: users_wanted[i].0.clone(),
                permission: users_wanted[i].1,
            },
        );
        assert(second[i as int] == users_wanted@[i as int].deep_view());
    }
    for i in 0..teams_left.len()
        invariant
            repo == expected_repo.deep_view(),
            first == team_grants(repo),
            second == user_grants(repo),
            third == teams_left.deep_view(),
            third == stray_teams(repo, teams.deep_view()),
            all == permission_requests(repo, teams.deep_view(), users.deep_view()),
            requests.len() == first.len() + second.len() + i,
            forall|j: int|
                0 <= j < requests.len() ==> #[trigger] requests@[j].deep_view() == all[j],
    {
        requests.push(
            Request::RemoveTeamFromRepo {
                org: expected_repo.org.clone(),
                repo: expected_repo.name.clone(),
                team: teams_left[i].0.clone(),
            },
        );
        assert(third[i as int] == teams_left@[i as int].deep_view());
    }
    for i in 0..users_left.len()
        invariant
            repo == expected_repo.deep_view(),
            first == team_grants(repo),
            second == user_grants(repo),
            third == stray_teams(repo, teams.deep_view()),
            fourth == users_left.deep_view(),
            fourth == stray_users(repo, users.deep_view()),
            all == permission_requests(repo, teams.deep_view(), users.deep_view()),
            requests.len() == first.len() + second.len() + third.len() + i,
            forall|j: int|
                0 <= j < requests.len() ==> #[trigger] requests@[j].deep_view() == all[j],
    {
        requests.push(
            Request::RemoveCollaboratorFromRepo {
                org: expected_repo.org.clone(),
                repo: expected_repo.name.clone(),
                user: users_left[i].0.clone(),
            },
        );
        assert(fourth[i as int] == users_left@[i as int].deep_view());
    }
    assert(requests.deep_view() =~= all);
    requests
}

impl SyncGitHub {
    /// Starts to bring all repositories to the wanted state.
    pub fn synchronize_all(&self) -> (run: SyncRun<'_>)
        ensures
            run.inv(),
            run.deep_view() == start(self.deep_view()),
    {
        let mut run = SyncRun { sync: self, done: 0, stage: SyncStage::Done };
        run.at_repo();
        run
    }
}

impl<'a> SyncRun<'a> {
    /// The invariant of a run: there is a current repository, call and branch where the stage
    /// speaks of one.
    pub closed spec fn inv(&self) -> bool {
        self.deep_view().wf()
    }

    fn at_repo(&mut self)
        requires
            old(self).done <= old(self).sync.repos.len(),
        ensures
            final(self).inv(),
            final(self).deep_view() == old(self).deep_view().at_repo(),
    {
        self.stage = if self.done < self.sync.repos.len() {
            SyncStage::Repo
        } else {
            SyncStage::Done
        };
    }

    fn at_permission(&mut self, repo: Repo, requests: Vec<Request>, sent: usize)
        requires
            old(self).done < old(self).sync.repos.len(),
            forall|i: int|
                0 <= i < requests.len() ==> answers(
                    #[trigger] requests.deep_view()[i],
                    ReplyView::Done,
                ),
        ensures
            final(self).inv(),
            final(self).deep_view() == old(self).deep_view().at_permission(
                repo.deep_view(),
                requests.deep_view(),
                sent as int,
            ),
    {
        self.stage = if sent < requests.len() {
            SyncStage::Permissions { repo, requests, sent }
        } else {
            SyncStage::ProtectedBranches { repo }
        };
    }

    fn at_removal(&mut self, repo: Repo, stray: Vec<String>, removed: usize)
        requires
            old(self).done < old(self).sync.repos.len(),
        ensures
            final(self).inv(),
            final(self).deep_view() == old(self).deep_view().at_removal(
                repo.deep_view(),
                stray.deep_view(),
                removed as int,
            ),
    {
        if removed < stray.len() {
            self.stage = SyncStage::Unprotect { repo, stray, removed };
        } else {
            self.done = self.done + 1;
            self.at_repo();
        }
    }

    fn at_branch(&mut self, progress: BranchProgress)
        requires
            old(self).done < old(self).sync.repos.len(),
        ensures
            final(self).inv(),
            final(self).deep_view() == old(self).deep_view().at_branch(progress.deep_view()),
    {
        if progress.index < self.sync.repos[self.done].branches.len() {
            self.stage = SyncStage::Branch { progress };
        } else {
            self.at_removal(progress.repo, progress.stray, 0);
        }
    }

    fn at_missing(&mut self, mut progress: BranchProgress, head: Option<String>)
        requires
            old(self).done < old(self).sync.repos.len(),
            progress.index < old(self).deep_view().repo().branches.len(),
        ensures
            final(self).inv(),
            final(self).deep_view() == old(self).deep_view().at_missing(
                progress.deep_view(),
                head.deep_view(),
            ),
    {
        let found = head.is_some();
        progress.head = Some(head);
        self.stage = if found {
            SyncStage::CreateBranch { progress }
        } else {
            SyncStage::Protection { progress }
        };
    }

    /// Gives the call that the run waits for; none if all repositories are done
    /// or a call failed.
    pub fn request(&self) -> (request: Option<Request>)
        requires
            self.inv(),
        ensures
            request.deep_view() == self.deep_view().pending(),
    {
        if matches!(self.stage, SyncStage::Done | SyncStage::Failed) {
            return None;
        }
        let wanted = &self.sync.repos[self.done];
        assert(wanted.deep_view() == self.deep_view().repo());
        match &self.stage {
            SyncStage::Repo => Some(
                Request::Repo { org: wanted.org.clone(), name: wanted.name.clone() },
            ),
            SyncStage::CreateRepo => Some(
                Request::CreateRepo {
                    org: wanted.org.clone(),
                    name: wanted.name.clone(),
                    description: wanted.description.clone(),
                },
            ),
            SyncStage::EditRepo { repo } => Some(
                Request::EditRepo {
                    org: repo.org.clone(),
                    name: repo.name.clone(),
                    description: wanted.description.clone(),
                },
            ),
            SyncStage::RepoTeams { .. } => Some(
                Request::RepoTeams { org: wanted.org.clone(), repo: wanted.name.clone() },
            ),
            SyncStage::RepoCollaborators { .. } => Some(
                Request::RepoCollaborators { org: wanted.org.clone(), repo: wanted.name.clone() },
            ),
            SyncStage::Permissions { requests, sent, .. } => Some(requests[*sent].clone()),
            SyncStage::ProtectedBranches { repo } => Some(
                Request::ProtectedBranches { org: repo.org.clone(), repo: repo.name.clone() },
            ),
            SyncStage::Branch { progress } => Some(
                Request::Branch {
                    org: progress.repo.org.clone(),
                    repo: progress.repo.name.clone(),
                    branch: wanted.branches[progress.index].name.clone(),
                },
            ),
            SyncStage::Head { progress } => Some(
                Request::Branch {
                    org: progress.repo.org.clone(),
                    repo: progress.repo.name.clone(),
                    branch: progress.repo.default_branch.clone(),
                },
            ),
            SyncStage::CreateBranch { progress } => {
                let commit = match &progress.head {
                    Some(Some(commit)) => commit.clone(),
                    _ => {
                        assert(false);
                        String::new()
                    },
                };
                Some(
                    Request::CreateBranch {
                        org: progress.repo.org.clone(),
                        repo: progress.repo.name.clone(),
                        branch: wanted.branches[progress.index].name.clone(),
                        commit,
                    },
                )
            },
            SyncStage::Protection { progress } => {
                let branch = &wanted.branches[progress.index];
                Some(
                    Request::UpdateBranchProtection {
                        org: progress.repo.org.clone(),
                        repo: progress.repo.name.clone(),
                        branch: branch.name.clone(),
                        protection: branch_protection(wanted, branch),
                    },
                )
            },
            SyncStage::Unprotect { repo, stray, removed } => Some(
                Request::DeleteBranchProtection {
                    org: repo.org.clone(),
                    repo: repo.name.clone(),
                    branch: stray[*removed].clone(),
                },
            ),
            SyncStage::Done | SyncStage::Failed => None,
        }
    }

    /// Tells whether the run can go on with a reply.
    pub fn accepts(&self, reply: &Reply) -> (fitting: bool)
        requires
            self.inv(),
        ensures
            fitting == self.deep_view().accepts(reply.deep_view()),
    {
        match self.request() {
            Some(request) => reply.answers(&request),
            None => false,
        }
    }

    /// Announces the call that the run waits for.
    pub fn log_call(&self) -> (lines: Vec<LogLine>)
        requires
            self.inv(),
        ensures
            lines.deep_view() == self.deep_view().call_lines(),
    {
        match &self.stage {
            SyncStage::Repo => {
                let wanted = &self.sync.repos[self.done];
                let mut lines = no_lines();
                push_debug(
                    &mut lines,
                    cat4("synchronizing repo ", wanted.org.as_str(), "/", wanted.name.as_str()),
                );
                assert(lines.deep_view() =~= self.deep_view().call_lines());
                lines
            },
            _ => match self.request() {
                Some(request) => request.log(),
                None => no_lines(),
            },
        }
    }

    /// Tells what came of the call that the run waits for.
    pub fn log_reply(&self, reply: &Reply) -> (lines: Vec<LogLine>)
        requires
            self.inv(),
        ensures
            lines.deep_view() == self.deep_view().reply_lines(reply.deep_view()),
    {
        if let (SyncStage::Repo, Reply::Repo(Some(repo))) = (&self.stage, reply) {
            let mut lines = no_lines();
            push_debug(&mut lines, "repo already exists...".to_owned());
            if has_description(repo, &self.sync.repos[self.done].description) {
                push_debug(&mut lines, "repo is in synced state".to_owned());
            }
            assert(lines.deep_view() =~= self.deep_view().reply_lines(reply.deep_view()));
            return lines;
        }
        match self.request() {
            Some(request) => reply.log(&request),
            None => no_lines(),
        }
    }

    /// Goes on with the reply to the call that the run waits for.
    pub fn advance(&mut self, reply: Reply)
        requires
            old(self).inv(),
            old(self).deep_view().accepts(reply.deep_view()),
        ensures
            final(self).inv(),
            final(self).deep_view() == old(self).deep_view().next(reply.deep_view()),
    {
        let mut stage = SyncStage::Done;
        std::mem::swap(&mut self.stage, &mut stage);
        let wanted = &self.sync.repos[self.done];
        match (stage, reply) {
            (SyncStage::Repo, Reply::Repo(None)) => {
                self.stage = SyncStage::CreateRepo;
            },
            (SyncStage::Repo, Reply::Repo(Some(repo))) => {
                self.stage = if has_description(&repo, &wanted.description) {
                    SyncStage::RepoTeams { repo }
                } else {
                    SyncStage::EditRepo { repo }
                };
            },
            (SyncStage::CreateRepo, Reply::CreatedRepo(repo)) => {
                self.stage = SyncStage::RepoTeams { repo };
            },
            (SyncStage::EditRepo { repo }, Reply::Done) => {
                self.stage = SyncStage::RepoTeams { repo };
            },
            (SyncStage::RepoTeams { repo }, Reply::RepoTeams(teams)) => {
                self.stage = SyncStage::RepoCollaborators { repo, teams };
            },
            (SyncStage::RepoCollaborators { repo, teams }, Reply::RepoCollaborators(users)) => {
                let requests = list_permission_requests(wanted, &teams, &users);
                self.at_permission(repo, requests, 0);
            },
            (SyncStage::Permissions { repo, requests, sent }, Reply::Done) => {
                assert(sent < requests.len());
                self.at_permission(repo, requests, sent + 1);
            },
            (SyncStage::ProtectedBranches { repo }, Reply::ProtectedBranches(protected)) => {
                let stray = protections_to_remove(wanted, &protected);
                self.at_branch(BranchProgress { repo, stray, head: None, index: 0 });
            },
            (SyncStage::Branch { progress }, Reply::Branch(Some(_))) => {
                self.stage = SyncStage::Protection { progress };
            },
            (SyncStage::Branch { progress }, Reply::Branch(None)) => {
                let known = match &progress.head {
                    Some(Some(commit)) => Some(Some(commit.clone())),
                    Some(None) => Some(None),
                    None => None,
                };
                match known {
                    Some(head) => {
                        self.at_missing(progress, head);
                    },
                    None => {
                        self.stage = SyncStage::Head { progress };
                    },
                }
            },
            (SyncStage::Head { progress }, Reply::Branch(head)) => {
                self.at_missing(progress, head);
            },
            (SyncStage::CreateBranch { progress }, Reply::Done) => {
                self.stage = SyncStage::Protection { progress };
            },
            (SyncStage::Protection { progress }, Reply::ProtectionUpdated(_)) => {
                let BranchProgress { repo, stray, head, index } = progress;
                assert(index < wanted.branches.len());
                self.at_branch(BranchProgress { repo, stray, head, index: index + 1 });
            },
            (SyncStage::Unprotect { repo, stray, removed }, Reply::Done) => {
                assert(removed < stray.len());
                self.at_removal(repo, stray, removed + 1);
            },
            _ => {
                assert(false);
            },
        }
    }

    /// Goes on with what came of the call that the run waits for. Where the call failed, the run
    /// is over: its error is handed back, and no call follows.
    pub fn resume<E>(&mut self, outcome: Result<Reply, E>) -> (result: Result<(), E>)
        requires
            old(self).inv(),
            old(self).deep_view().pending() is Some,
            outcome matches Ok(reply) ==> old(self).deep_view().accepts(reply.deep_view()),
        ensures
            final(self).inv(),
            match outcome {
                Ok(reply) => {
                    &&& result == Ok::<(), E>(())
                    &&& final(self).deep_view() == old(self).deep_view().next(reply.deep_view())
                },
                Err(error) => {
                    &&& result == Err::<(), E>(error)
                    &&& final(self).deep_view() == old(self).deep_view().stopped()
                    &&& final(self).deep_view().pending() is None
                },
            },
    {
        match outcome {
            Ok(reply) => {
                self.advance(reply);
                Ok(())
            },
            Err(error) => {
                self.stage = SyncStage::Failed;
                Err(error)
            },
        }
    }
}

} // verus!
