//! Comparing the wanted state with GitHub, one call at a time.
//!
//! A run names the call that it waits for; handed the reply, it goes on to the next call. A
//! call that fails ends it. All calls only read.
use vstd::prelude::*;

use crate::api::{Repo, RepoTeam, RepoTeamView, RepoUser, RepoUserView, RepoView, Team, TeamView};
use crate::branches::{BranchState, BranchStateView};
use crate::call::{answers, Reply, ReplyView, Request, RequestView};
use crate::diff::{Diff, DiffView, RepoDiff, RepoDiffView, TeamDiff, TeamDiffView};
use crate::lists::{find_name, lookup};
use crate::repos::{repo_diff, ActualRepo, ActualRepoView};
use crate::sync::{github_teams, SyncGitHub, SyncGitHubView};
use crate::team_data::{self, GitHubTeam, GitHubTeamView};
use crate::teams::{members_known, team_deletions, team_diff, ActualTeam, ActualTeamView};

verus! {

/// What a run waits for.
#[derive(Debug)]
pub enum DiffStage {
    /// The list of the teams of the current team's organization.
    OrgTeams,
    /// The current team.
    Team,
    /// The members of the current team.
    Memberships { team: Team },
    /// The current repository.
    Repo,
    /// The teams with access to the current repository.
    RepoTeams { repo: Repo },
    /// The people with access to the current repository.
    RepoCollaborators { repo: Repo, teams: Vec<RepoTeam> },
    /// The protected branches of the current repository.
    ProtectedBranches { repo: Repo, teams: Vec<RepoTeam>, collaborators: Vec<RepoUser> },
    /// The current branch. `seen` holds what is known of the branches before it, `head` the
    /// head of the main branch if it was needed before.
    Branch { seen: ActualRepo, head: Option<String> },
    /// The head of the main branch.
    Head { seen: ActualRepo },
    /// The protection of the current branch.
    Protection { seen: ActualRepo, head: Option<String> },
    /// Nothing: the comparison is complete.
    Done,
    /// Nothing: a call failed.
    Failed,
}

pub enum DiffStageView {
    OrgTeams,
    Team,
    Memberships { team: TeamView },
    Repo,
    RepoTeams { repo: RepoView },
    RepoCollaborators { repo: RepoView, teams: Seq<RepoTeamView> },
    ProtectedBranches {
        repo: RepoView,
        teams: Seq<RepoTeamView>,
        collaborators: Seq<RepoUserView>,
    },
    Branch { seen: ActualRepoView, head: Option<Seq<char>> },
    Head { seen: ActualRepoView },
    Protection { seen: ActualRepoView, head: Option<Seq<char>> },
    Done,
    Failed,
}

impl DeepView for DiffStage {
    type V = DiffStageView;

    open spec fn deep_view(&self) -> DiffStageView {
        match self {
            DiffStage::OrgTeams => DiffStageView::OrgTeams,
            DiffStage::Team => DiffStageView::Team,
            DiffStage::Memberships { team } => DiffStageView::Memberships {
                team: team.deep_view(),
            },
            DiffStage::Repo => DiffStageView::Repo,
            DiffStage::RepoTeams { repo } => DiffStageView::RepoTeams { repo: repo.deep_view() },
            DiffStage::RepoCollaborators { repo, teams } => DiffStageView::RepoCollaborators {
                repo: repo.deep_view(),
                teams: teams.deep_view(),
            },
            DiffStage::ProtectedBranches { repo, teams, collaborators } =>
                DiffStageView::ProtectedBranches {
                repo: repo.deep_view(),
                teams: teams.deep_view(),
                collaborators: collaborators.deep_view(),
            },
            DiffStage::Branch { seen, head } => DiffStageView::Branch {
                seen: seen.deep_view(),
                head: head.deep_view(),
            },
            DiffStage::Head { seen } => DiffStageView::Head { seen: seen.deep_view() },
            DiffStage::Protection { seen, head } => DiffStageView::Protection {
                seen: seen.deep_view(),
                head: head.deep_view(),
            },
            DiffStage::Done => DiffStageView::Done,
            DiffStage::Failed => DiffStageView::Failed,
        }
    }
}

/// A comparison of the wanted state with GitHub that is under way. The current team is the
/// one after those that have a diff, and so is the current repository.
pub struct DiffRun<'a> {
    sync: &'a SyncGitHub,
    teams: Vec<GitHubTeam>,
    listings: Vec<(String, Vec<String>)>,
    team_diffs: Vec<TeamDiff>,
    repo_diffs: Vec<RepoDiff>,
    stage: DiffStage,
}

pub struct DiffRunView {
    pub sync: SyncGitHubView,
    /// The organizations whose teams were listed, with their teams.
    pub listings: Seq<(Seq<char>, Seq<Seq<char>>)>,
    pub team_diffs: Seq<TeamDiffView>,
    pub repo_diffs: Seq<RepoDiffView>,
    pub stage: DiffStageView,
}

impl<'a> DeepView for DiffRun<'a> {
    type V = DiffRunView;

    closed spec fn deep_view(&self) -> DiffRunView {
        DiffRunView {
            sync: self.sync.deep_view(),
            listings: self.listings.deep_view(),
            team_diffs: self.team_diffs.deep_view(),
            repo_diffs: self.repo_diffs.deep_view(),
            stage: self.stage.deep_view(),
        }
    }
}

impl DiffRunView {
    /// The team that is compared.
    pub open spec fn team(self) -> GitHubTeamView {
        github_teams(self.sync.teams)[self.team_diffs.len() as int]
    }

    /// The repository that is compared.
    pub open spec fn repo(self) -> team_data::RepoView {
        self.sync.repos[self.repo_diffs.len() as int]
    }

    /// Whether there is a current team, repository and branch where the stage speaks of one.
    pub open spec fn wf(self) -> bool {
        match self.stage {
            DiffStageView::OrgTeams
            | DiffStageView::Team
            | DiffStageView::Memberships { .. } => self.team_diffs.len() < github_teams(
                self.sync.teams,
            ).len(),
            DiffStageView::Repo
            | DiffStageView::RepoTeams { .. }
            | DiffStageView::RepoCollaborators { .. }
            | DiffStageView::ProtectedBranches { .. } => self.repo_diffs.len()
                < self.sync.repos.len(),
            DiffStageView::Branch { seen, .. }
            | DiffStageView::Head { seen }
            | DiffStageView::Protection { seen, .. } => self.repo_diffs.len()
                < self.sync.repos.len() && seen.branches.len() < self.repo().branches.len(),
            DiffStageView::Done | DiffStageView::Failed => true,
        }
    }

    /// The call that the run waits for.
    pub open spec fn pending(self) -> Option<RequestView> {
        match self.stage {
            DiffStageView::OrgTeams => Some(RequestView::OrgTeams { org: self.team().org }),
            DiffStageView::Team => Some(
                RequestView::Team { org: self.team().org, name: self.team().name },
            ),
            DiffStageView::Memberships { team } => Some(
                RequestView::TeamMemberships { org: self.team().org, of_team: team },
            ),
            DiffStageView::Repo => Some(
                RequestView::Repo { org: self.repo().org, name: self.repo().name },
            ),
            DiffStageView::RepoTeams { .. } => Some(
                RequestView::RepoTeams { org: self.repo().org, repo: self.repo().name },
            ),
            DiffStageView::RepoCollaborators { .. } => Some(
                RequestView::RepoCollaborators { org: self.repo().org, repo: self.repo().name },
            ),
            DiffStageView::ProtectedBranches { repo, .. } => Some(
                RequestView::ProtectedBranches { org: repo.org, repo: repo.name },
            ),
            DiffStageView::Branch { seen, .. } => Some(
                RequestView::Branch {
                    org: self.repo().org,
                    repo: self.repo().name,
                    branch: self.repo().branches[seen.branches.len() as int].name,
                },
            ),
            DiffStageView::Head { seen } => Some(
                RequestView::Branch {
                    org: seen.repo.org,
                    repo: seen.repo.name,
                    branch: seen.repo.default_branch,
                },
            ),
            DiffStageView::Protection { seen, .. } => Some(
                RequestView::BranchProtection {
                    org: seen.repo.org,
                    repo: seen.repo.name,
                    branch: self.repo().branches[seen.branches.len() as int].name,
                },
            ),
            DiffStageView::Done | DiffStageView::Failed => None,
        }
    }

    /// Whether the run can go on with a reply: it answers the call, the main branch is there
    /// when its head is asked for, and the members of a team are known when it is compared.
    pub open spec fn accepts(self, reply: ReplyView) -> bool {
        &&& self.pending() is Some
        &&& answers(self.pending()->0, reply)
        &&& self.stage is Head ==> reply->Branch_0 is Some
        &&& reply == ReplyView::Team(None) || self.stage is Memberships ==> members_known(
            self.sync,
            self.team(),
        )
    }

    /// The run after its call failed.
    pub open spec fn stopped(self) -> DiffRunView {
        DiffRunView { stage: DiffStageView::Failed, ..self }
    }

    /// Goes on with the current repository, if there is one.
    pub open spec fn at_repo(self) -> DiffRunView {
        DiffRunView {
            stage: if self.repo_diffs.len() < self.sync.repos.len() {
                DiffStageView::Repo
            } else {
                DiffStageView::Done
            },
            ..self
        }
    }

    /// Goes on with the current team, if there is one. The teams of its organization are
    /// listed if they were not yet. After the last team come the deletions.
    pub open spec fn at_team(self) -> DiffRunView {
        if self.team_diffs.len() < github_teams(self.sync.teams).len() {
            DiffRunView {
                stage: if lookup(self.listings, self.team().org) is Some {
                    DiffStageView::Team
                } else {
                    DiffStageView::OrgTeams
                },
                ..self
            }
        } else {
            DiffRunView {
                team_diffs: self.team_diffs + team_deletions(self.sync, self.listings),
                ..self
            }.at_repo()
        }
    }

    /// Adds the diff of the current team.
    pub open spec fn with_team(self, actual: Option<ActualTeamView>) -> DiffRunView {
        DiffRunView {
            team_diffs: self.team_diffs.push(team_diff(self.sync, self.team(), actual)),
            ..self
        }.at_team()
    }

    /// Adds the diff of the current repository.
    pub open spec fn with_repo(self, actual: Option<ActualRepoView>) -> DiffRunView {
        DiffRunView {
            repo_diffs: self.repo_diffs.push(repo_diff(self.repo(), actual)),
            ..self
        }.at_repo()
    }

    /// Goes on with the current branch, if there is one.
    pub open spec fn at_branch(self, seen: ActualRepoView, head: Option<Seq<char>>) -> DiffRunView {
        if seen.branches.len() < self.repo().branches.len() {
            DiffRunView { stage: DiffStageView::Branch { seen, head }, ..self }
        } else {
            self.with_repo(Some(seen))
        }
    }

    /// Adds what is known of the current branch.
    pub open spec fn with_branch(
        self,
        seen: ActualRepoView,
        state: BranchStateView,
        head: Option<Seq<char>>,
    ) -> DiffRunView {
        self.at_branch(ActualRepoView { branches: seen.branches.push(state), ..seen }, head)
    }

    /// The run after a reply.
    pub open spec fn next(self, reply: ReplyView) -> DiffRunView {
        match (self.stage, reply) {
            (DiffStageView::OrgTeams, ReplyView::OrgTeams(names)) => DiffRunView {
                listings: self.listings.push((self.team().org, names)),
                stage: DiffStageView::Team,
                ..self
            },
            (DiffStageView::Team, ReplyView::Team(Some(team))) => DiffRunView {
                stage: DiffStageView::Memberships { team },
                ..self
            },
            (DiffStageView::Team, ReplyView::Team(None)) => self.with_team(None),
            (DiffStageView::Memberships { team }, ReplyView::TeamMemberships(members)) =>
                self.with_team(Some(ActualTeamView { team, members })),
            (DiffStageView::Repo, ReplyView::Repo(Some(repo))) => DiffRunView {
                stage: DiffStageView::RepoTeams { repo },
                ..self
            },
            (DiffStageView::Repo, ReplyView::Repo(None)) => self.with_repo(None),
            (DiffStageView::RepoTeams { repo }, ReplyView::RepoTeams(teams)) => DiffRunView {
                stage: DiffStageView::RepoCollaborators { repo, teams },
                ..self
            },
            (
                DiffStageView::RepoCollaborators { repo, teams },
                ReplyView::RepoCollaborators(collaborators),
            ) => DiffRunView {
                stage: DiffStageView::ProtectedBranches { repo, teams, collaborators },
                ..self
            },
            (
                DiffStageView::ProtectedBranches { repo, teams, collaborators },
                ReplyView::ProtectedBranches(protected),
            ) => self.at_branch(
                ActualRepoView { repo, teams, collaborators, protected, branches: Seq::empty() },
                None,
            ),
            (DiffStageView::Branch { seen, head }, ReplyView::Branch(Some(_))) => DiffRunView {
                stage: DiffStageView::Protection { seen, head },
                ..self
            },
            (DiffStageView::Branch { seen, head: Some(commit) }, ReplyView::Branch(None)) =>
                self.with_branch(seen, BranchStateView::Missing { head: commit }, Some(commit)),
            (DiffStageView::Branch { seen, head: None }, ReplyView::Branch(None)) => DiffRunView {
                stage: DiffStageView::Head { seen },
                ..self
            },
            (DiffStageView::Head { seen }, ReplyView::Branch(Some(commit))) => self.with_branch(
                seen,
                BranchStateView::Missing { head: commit },
                Some(commit),
            ),
            (
                DiffStageView::Protection { seen, head },
                ReplyView::BranchProtection(protection),
            ) => self.with_branch(seen, BranchStateView::Present { protection }, head),
            _ => self,
        }
    }
}

/// The start of a comparison.
pub open spec fn start(sync: SyncGitHubView) -> DiffRunView {
    DiffRunView {
        sync,
        listings: Seq::empty(),
        team_diffs: Seq::empty(),
        repo_diffs: Seq::empty(),
        stage: DiffStageView::Done,
    }.at_team()
}

impl SyncGitHub {
    /// Starts to compare all teams and repositories with GitHub.
    pub fn diff_all(&self) -> (run: DiffRun<'_>)
        ensures
            run.inv(),
            run.deep_view() == start(self.deep_view()),
    {
        let mut run = DiffRun {
            sync: self,
            teams: SyncGitHub::github_teams(&self.teams),
            listings: Vec::new(),
            team_diffs: Vec::new(),
            repo_diffs: Vec::new(),
            stage: DiffStage::Done,
        };
        proof {
            assert(run.listings.deep_view() =~= Seq::empty());
            assert(run.team_diffs.deep_view() =~= Seq::empty());
            assert(run.repo_diffs.deep_view() =~= Seq::empty());
        }
        run.at_team();
        run
    }
}

impl<'a> DiffRun<'a> {
    /// The invariant of a run: its list of teams is that of the wanted state, and there is a
    /// current team, repository and branch where the stage speaks of one.
    pub closed spec fn inv(&self) -> bool {
        &&& self.teams.deep_view() == github_teams(self.sync.deep_view().teams)
        &&& self.deep_view().wf()
    }

    spec fn flat(&self) -> bool {
        self.teams.deep_view() == github_teams(self.sync.deep_view().teams)
    }

    fn at_repo(&mut self)
        requires
            old(self).flat(),
        ensures
            final(self).inv(),
            final(self).deep_view() == old(self).deep_view().at_repo(),
    {
        self.stage = if self.repo_diffs.len() < self.sync.repos.len() {
            DiffStage::Repo
        } else {
            DiffStage::Done
        };
    }

    fn at_team(&mut self)
        requires
            old(self).flat(),
        ensures
            final(self).inv(),
            final(self).deep_view() == old(self).deep_view().at_team(),
    {
        let current = self.team_diffs.len();
        if current < self.teams.len() {
            let listed = find_name(&self.listings, &self.teams[current].org).is_some();
            self.stage = if listed {
                DiffStage::Team
            } else {
                DiffStage::OrgTeams
            };
        } else {
            let mut deletions = self.sync.diff_deleted_teams(&self.listings);
            let ghost before = self.team_diffs.deep_view();
            let ghost added = deletions.deep_view();
            self.team_diffs.append(&mut deletions);
            assert(self.team_diffs.deep_view() =~= before + added);
            self.at_repo()
        }
    }

    fn with_team(&mut self, actual: Option<ActualTeam>)
        requires
            old(self).flat(),
            old(self).deep_view().team_diffs.len() < github_teams(
                old(self).deep_view().sync.teams,
            ).len(),
            members_known(old(self).deep_view().sync, old(self).deep_view().team()),
        ensures
            final(self).inv(),
            final(self).deep_view() == old(self).deep_view().with_team(actual.deep_view()),
    {
        let diff = self.sync.diff_team(&self.teams[self.team_diffs.len()], &actual);
        let ghost before = self.team_diffs.deep_view();
        let ghost added = diff.deep_view();
        self.team_diffs.push(diff);
        assert(self.team_diffs.deep_view() =~= before.push(added));
        self.at_team()
    }

    fn with_repo(&mut self, actual: Option<ActualRepo>)
        requires
            old(self).flat(),
            old(self).deep_view().repo_diffs.len() < old(self).deep_view().sync.repos.len(),
            actual matches Some(actual) ==> actual.branches.len()
                == old(self).deep_view().repo().branches.len(),
        ensures
            final(self).inv(),
            final(self).deep_view() == old(self).deep_view().with_repo(actual.deep_view()),
    {
        let diff = self.sync.diff_repo(&self.sync.repos[self.repo_diffs.len()], &actual);
        let ghost before = self.repo_diffs.deep_view();
        let ghost added = diff.deep_view();
        self.repo_diffs.push(diff);
        assert(self.repo_diffs.deep_view() =~= before.push(added));
        self.at_repo()
    }

    fn at_branch(&mut self, seen: ActualRepo, head: Option<String>)
        requires
            old(self).flat(),
            old(self).deep_view().repo_diffs.len() < old(self).deep_view().sync.repos.len(),
            seen.branches.len() <= old(self).deep_view().repo().branches.len(),
        ensures
            final(self).inv(),
            final(self).deep_view() == old(self).deep_view().at_branch(
                seen.deep_view(),
                head.deep_view(),
            ),
    {
        if seen.branches.len() < self.sync.repos[self.repo_diffs.len()].branches.len() {
            self.stage = DiffStage::Branch { seen, head };
        } else {
            self.with_repo(Some(seen))
        }
    }

    fn with_branch(&mut self, mut seen: ActualRepo, state: BranchState, head: Option<String>)
        requires
            old(self).flat(),
            old(self).deep_view().repo_diffs.len() < old(self).deep_view().sync.repos.len(),
            seen.branches.len() < old(self).deep_view().repo().branches.len(),
        ensures
            final(self).inv(),
            final(self).deep_view() == old(self).deep_view().with_branch(
                seen.deep_view(),
                state.deep_view(),
                head.deep_view(),
            ),
    {
        let ghost before = seen.branches.deep_view();
        let ghost added = state.deep_view();
        seen.branches.push(state);
        assert(seen.branches.deep_view() =~= before.push(added));
        self.at_branch(seen, head)
    }

    /// Gives the call that the run waits for; none if the comparison is complete or a call failed.
    pub fn request(&self) -> (request: Option<Request>)
        requires
            self.inv(),
        ensures
            request.deep_view() == self.deep_view().pending(),
    {
        let current_team = self.team_diffs.len();
        let current_repo = self.repo_diffs.len();
        assert(self.sync.repos.deep_view().len() == self.sync.repos.len());
        match &self.stage {
            DiffStage::OrgTeams => Some(
                Request::OrgTeams { org: self.teams[current_team].org.clone() },
            ),
            DiffStage::Team => Some(
                Request::Team {
                    org: self.teams[current_team].org.clone(),
                    name: self.teams[current_team].name.clone(),
                },
            ),
            DiffStage::Memberships { team } => Some(
                Request::TeamMemberships {
                    org: self.teams[current_team].org.clone(),
                    of_team: team.clone(),
                },
            ),
            DiffStage::Repo => Some(
                Request::Repo {
                    org: self.sync.repos[current_repo].org.clone(),
                    name: self.sync.repos[current_repo].name.clone(),
                },
            ),
            DiffStage::RepoTeams { .. } => Some(
                Request::RepoTeams {
                    org: self.sync.repos[current_repo].org.clone(),
                    repo: self.sync.repos[current_repo].name.clone(),
                },
            ),
            DiffStage::RepoCollaborators { .. } => Some(
                Request::RepoCollaborators {
                    org: self.sync.repos[current_repo].org.clone(),
                    repo: self.sync.repos[current_repo].name.clone(),
                },
            ),
            DiffStage::ProtectedBranches { repo, .. } => Some(
                Request::ProtectedBranches { org: repo.org.clone(), repo: repo.name.clone() },
            ),
            DiffStage::Branch { seen, .. } => {
                let repo = &self.sync.repos[current_repo];
                Some(
                    Request::Branch {
                        org: repo.org.clone(),
                        repo: repo.name.clone(),
                        branch: repo.branches[seen.branches.len()].name.clone(),
                    },
                )
            },
            DiffStage::Head { seen } => Some(
                Request::Branch {
                    org: seen.repo.org.clone(),
                    repo: seen.repo.name.clone(),
                    branch: seen.repo.default_branch.clone(),
                },
            ),
            DiffStage::Protection { seen, .. } => Some(
                Request::BranchProtection {
                    org: seen.repo.org.clone(),
                    repo: seen.repo.name.clone(),
                    branch: self.sync.repos[current_repo].branches[seen.branches.len()]
                        .name
                        .clone(),
                },
            ),
            DiffStage::Done | DiffStage::Failed => None,
        }
    }

    /// Tells whether the run can go on with a reply.
    pub fn accepts(&self, reply: &Reply) -> (fitting: bool)
        requires
            self.inv(),
        ensures
            fitting == self.deep_view().accepts(reply.deep_view()),
    {
        let request = match self.request() {
            Some(request) => request,
            None => {
                return false;
            },
        };
        if !reply.answers(&request) {
            return false;
        }
        match &self.stage {
            DiffStage::Head { .. } => matches!(reply, Reply::Branch(Some(_))),
            DiffStage::Team => matches!(reply, Reply::Team(Some(_))) || self.sync.knows_members(
                &self.teams[self.team_diffs.len()],
            ),
            DiffStage::Memberships { .. } => self.sync.knows_members(
                &self.teams[self.team_diffs.len()],
            ),
            _ => true,
        }
    }

    /// Goes on with the reply to the call that the run waits for.
    pub fn advance(&mut self, reply: Reply)
        requires
            old(self).inv(),
            old(self).deep_view().accepts(reply.deep_view()),
        ensures
            final(self).inv(),
            final(self).deep_view() == old(self).deep_view().next(reply.deep_view()),
    {
        let ghost before = self.deep_view();
        let mut stage = DiffStage::Done;
        std::mem::swap(&mut self.stage, &mut stage);
        match (stage, reply) {
            (DiffStage::OrgTeams, Reply::OrgTeams(names)) => {
                let org = self.teams[self.team_diffs.len()].org.clone();
                let ghost added = (org@, names.deep_view());
                self.listings.push((org, names));
                assert(self.listings.deep_view() =~= before.listings.push(added));
                self.stage = DiffStage::Team;
            },
            (DiffStage::Team, Reply::Team(Some(team))) => {
                self.stage = DiffStage::Memberships { team };
            },
            (DiffStage::Team, Reply::Team(None)) => self.with_team(None),
            (DiffStage::Memberships { team }, Reply::TeamMemberships(members)) => self.with_team(
                Some(ActualTeam { team, members }),
            ),
            (DiffStage::Repo, Reply::Repo(Some(repo))) => {
                self.stage = DiffStage::RepoTeams { repo };
            },
            (DiffStage::Repo, Reply::Repo(None)) => self.with_repo(None),
            (DiffStage::RepoTeams { repo }, Reply::RepoTeams(teams)) => {
                self.stage = DiffStage::RepoCollaborators { repo, teams };
            },
            (
                DiffStage::RepoCollaborators { repo, teams },
                Reply::RepoCollaborators(collaborators),
            ) => {
                self.stage = DiffStage::ProtectedBranches { repo, teams, collaborators };
            },
            (
                DiffStage::ProtectedBranches { repo, teams, collaborators },
                Reply::ProtectedBranches(protected),
            ) => {
                let branches: Vec<BranchState> = Vec::new();
                assert(branches.deep_view() =~= Seq::empty());
                self.at_branch(
                    ActualRepo { repo, teams, collaborators, protected, branches },
                    None,
                )
            },
            (DiffStage::Branch { seen, head }, Reply::Branch(Some(_))) => {
                self.stage = DiffStage::Protection { seen, head };
            },
            (DiffStage::Branch { seen, head: Some(commit) }, Reply::Branch(None)) => {
                let head = commit.clone();
                self.with_branch(seen, BranchState::Missing { head }, Some(commit))
            },
            (DiffStage::Branch { seen, head: None }, Reply::Branch(None)) => {
                self.stage = DiffStage::Head { seen };
            },
            (DiffStage::Head { seen }, Reply::Branch(Some(commit))) => {
                let head = commit.clone();
                self.with_branch(seen, BranchState::Missing { head }, Some(commit))
            },
            (DiffStage::Protection { seen, head }, Reply::BranchProtection(protection)) =>
                self.with_branch(seen, BranchState::Present { protection }, head),
            _ => {
                assert(false);
            },
        }
    }

    /// Goes on with what came of the call that the run waits for. Where the call failed, the run
    /// is over: its error is handed back, and no call follows.
    pub fn resume<E>(&mut self, outcome: Result<Reply, E>) -> (result: Result<(), E>)
        requires
            old(self).inv(),
            old(self).deep_view().pending() is Some,
            outcome matches Ok(reply) ==> old(self).deep_view().accepts(reply.deep_view()),
        ensures
            final(self).inv(),
            match outcome {
                Ok(reply) => {
                    &&& result == Ok::<(), E>(())
                    &&& final(self).deep_view() == old(self).deep_view().next(reply.deep_view())
                },
                Err(error) => {
                    &&& result == Err::<(), E>(error)
                    &&& final(self).deep_view() == old(self).deep_view().stopped()
                    &&& final(self).deep_view().pending() is None
                },
            },
    {
        match outcome {
            Ok(reply) => {
                self.advance(reply);
                Ok(())
            },
            Err(error) => {
                self.stage = DiffStage::Failed;
                Err(error)
            },
        }
    }

    /// Hands out the result of a complete comparison; none while calls are still to be made, and
    /// none where a call failed.
    pub fn finish(self) -> (diff: Option<Diff>)
        ensures
            diff.deep_view() == if self.deep_view().stage is Done {
                Some(
                    DiffView {
                        team_diffs: self.deep_view().team_diffs,
                        repo_diffs: self.deep_view().repo_diffs,
                    },
                )
            } else {
                None
            },
    {
        match self.stage {
            DiffStage::Done => Some(
                Diff { team_diffs: self.team_diffs, repo_diffs: self.repo_diffs },
            ),
            _ => None,
        }
    }
}

} // verus!
