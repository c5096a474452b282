//! The wanted state: what the team repository says about teams and repositories.
//!
//! Every type that holds text or lists has a mathematical counterpart, named after it with
//! `View` at the end, which is what its `deep_view` gives.
use vstd::prelude::*;

verus! {

/// A bot that can be given access to a repository.
#[derive(Clone, Copy, PartialEq, Eq, Structural, Debug)]
pub enum Bot {
    Bors,
    Highfive,
    RustTimer,
    Rustbot,
}

impl DeepView for Bot {
    type V = Bot;

    open spec fn deep_view(&self) -> Bot {
        *self
    }
}

/// A level of access to a repository, as the team repository names it.
#[derive(Clone, Copy, PartialEq, Eq, Structural, Debug)]
pub enum RepoPermission {
    Write,
    Admin,
    Maintain,
    Triage,
}

impl DeepView for RepoPermission {
    type V = RepoPermission;

    open spec fn deep_view(&self) -> RepoPermission {
        *self
    }
}

/// A team of the team repository, which may be mirrored on GitHub.
#[derive(Debug)]
pub struct Team {
    pub github: Option<TeamGitHub>,
}

pub struct TeamView {
    pub github: Option<TeamGitHubView>,
}

impl DeepView for Team {
    type V = TeamView;

    open spec fn deep_view(&self) -> TeamView {
        TeamView { github: self.github.deep_view() }
    }
}

/// The GitHub teams that mirror one team.
#[derive(Debug)]
pub struct TeamGitHub {
    pub teams: Vec<GitHubTeam>,
}

pub struct TeamGitHubView {
    pub teams: Seq<GitHubTeamView>,
}

impl DeepView for TeamGitHub {
    type V = TeamGitHubView;

    open spec fn deep_view(&self) -> TeamGitHubView {
        TeamGitHubView { teams: self.teams.deep_view() }
    }
}

/// One GitHub team: its organization, its name and the ids of its members.
#[derive(Debug)]
pub struct GitHubTeam {
    pub org: String,
    pub name: String,
    pub members: Vec<usize>,
}

pub struct GitHubTeamView {
    pub org: Seq<char>,
    pub name: Seq<char>,
    pub members: Seq<usize>,
}

impl DeepView for GitHubTeam {
    type V = GitHubTeamView;

    open spec fn deep_view(&self) -> GitHubTeamView {
        GitHubTeamView { org: self.org@, name: self.name@, members: self.members@ }
    }
}

impl Clone for GitHubTeam {
    fn clone(&self) -> (copy: Self)
        ensures
            copy.deep_view() == self.deep_view(),
    {
        let members = self.members.clone();
        assert(members@ =~= self.members@);
        GitHubTeam { org: self.org.clone(), name: self.name.clone(), members }
    }
}

/// A repository with everything that is to hold of it on GitHub.
#[derive(Debug)]
pub struct Repo {
    pub org: String,
    pub name: String,
    pub description: String,
    pub bots: Vec<Bot>,
    pub teams: Vec<RepoTeam>,
    pub members: Vec<RepoMember>,
    pub branches: Vec<Branch>,
}

pub struct RepoView {
    pub org: Seq<char>,
    pub name: Seq<char>,
    pub description: Seq<char>,
    pub bots: Seq<Bot>,
    pub teams: Seq<RepoTeamView>,
    pub members: Seq<RepoMemberView>,
    pub branches: Seq<BranchView>,
}

impl DeepView for Repo {
    type V = RepoView;

    open spec fn deep_view(&self) -> RepoView {
        RepoView {
            org: self.org@,
            name: self.name@,
            description: self.description@,
            bots: self.bots@,
            teams: self.teams.deep_view(),
            members: self.members.deep_view(),
            branches: self.branches.deep_view(),
        }
    }
}

/// A team with access to a repository.
#[derive(Debug)]
pub struct RepoTeam {
    pub name: String,
    pub permission: RepoPermission,
}

pub struct RepoTeamView {
    pub name: Seq<char>,
    pub permission: RepoPermission,
}

impl DeepView for RepoTeam {
    type V = RepoTeamView;

    open spec fn deep_view(&self) -> RepoTeamView {
        RepoTeamView { name: self.name@, permission: self.permission }
    }
}

/// A person with access to a repository.
#[derive(Debug)]
pub struct RepoMember {
    pub name: String,
    pub permission: RepoPermission,
}

pub struct RepoMemberView {
    pub name: Seq<char>,
    pub permission: RepoPermission,
}

impl DeepView for RepoMember {
    type V = RepoMemberView;

    open spec fn deep_view(&self) -> RepoMemberView {
        RepoMemberView { name: self.name@, permission: self.permission }
    }
}

/// A branch that is to be protected.
#[derive(Debug)]
pub struct Branch {
    pub name: String,
    pub ci_checks: Vec<String>,
    pub dismiss_stale_review: bool,
}

pub struct BranchView {
    pub name: Seq<char>,
    pub ci_checks: Seq<Seq<char>>,
    pub dismiss_stale_review: bool,
}

impl DeepView for Branch {
    type V = BranchView;

    open spec fn deep_view(&self) -> BranchView {
        BranchView {
            name: self.name@,
            ci_checks: self.ci_checks.deep_view(),
            dismiss_stale_review: self.dismiss_stale_review,
        }
    }
}

} // verus!
