//! The calls that are made to GitHub, and their replies.
use vstd::prelude::*;

use crate::api::{
    BranchProtection, BranchProtectionView, Repo, RepoPermission, RepoTeam, RepoTeamView, RepoUser,
    RepoUserView, RepoView, Team, TeamMember, TeamMemberView, TeamPrivacy, TeamRole, TeamView,
};

verus! {

fn copy_option(value: &Option<String>) -> (copy: Option<String>)
    ensures
        copy.deep_view() == value.deep_view(),
{
    match value {
        Some(text) => Some(text.clone()),
        None => None,
    }
}

/// One call of the GitHub API.
#[derive(PartialEq, Debug)]
pub enum Request {
    /// The names of the teams of an organization.
    OrgTeams { org: String },
    /// One team of an organization, if there is such a team.
    Team { org: String, name: String },
    /// The members of a team, by their ids.
    TeamMemberships { org: String, of_team: Team },
    /// One repository, if there is such a repository.
    Repo { org: String, name: String },
    /// The teams that have access to a repository.
    RepoTeams { org: String, repo: String },
    /// The people who have access to a repository.
    RepoCollaborators { org: String, repo: String },
    /// The names of the protected branches of a repository.
    ProtectedBranches { org: String, repo: String },
    /// The commit at the head of a branch, if there is such a branch.
    Branch { org: String, repo: String, branch: String },
    /// The protection of a branch, if it is protected.
    BranchProtection { org: String, repo: String, branch: String },
    /// Creates a team.
    CreateTeam { org: String, name: String, description: String, privacy: TeamPrivacy },
    /// Changes those properties of a team that are given.
    EditTeam {
        org: String,
        name: String,
        new_name: Option<String>,
        new_description: Option<String>,
        new_privacy: Option<TeamPrivacy>,
    },
    /// Deletes a team.
    DeleteTeam { org: String, name: String },
    /// Makes a user a member of a team, in a role.
    SetTeamMembership { org: String, team: String, user: String, role: TeamRole },
    /// Takes a user out of a team.
    RemoveTeamMembership { org: String, team: String, user: String },
    /// Creates a repository.
    CreateRepo { org: String, name: String, description: String },
    /// Changes the description of a repository.
    EditRepo { org: String, name: String, description: String },
    /// Gives a team access to a repository.
    UpdateTeamRepoPermissions {
        org: String,
        repo: String,
        team: String,
        permission: RepoPermission,
    },
    /// Gives a user access to a repository.
    UpdateUserRepoPermissions {
        org: String,
        repo: String,
        user: String,
        permission: RepoPermission,
    },
    /// Takes the access to a repository away from a team.
    RemoveTeamFromRepo { org: String, repo: String, team: String },
    /// Takes the access to a repository away from a user.
    RemoveCollaboratorFromRepo { org: String, repo: String, user: String },
    /// Creates a branch at a commit.
    CreateBranch { org: String, repo: String, branch: String, commit: String },
    /// Sets the protection of a branch.
    UpdateBranchProtection {
        org: String,
        repo: String,
        branch: String,
        protection: BranchProtection,
    },
    /// Removes the protection of a branch.
    DeleteBranchProtection { org: String, repo: String, branch: String },
}

pub enum RequestView {
    OrgTeams { org: Seq<char> },
    Team { org: Seq<char>, name: Seq<char> },
    TeamMemberships { org: Seq<char>, of_team: TeamView },
    Repo { org: Seq<char>, name: Seq<char> },
    RepoTeams { org: Seq<char>, repo: Seq<char> },
    RepoCollaborators { org: Seq<char>, repo: Seq<char> },
    ProtectedBranches { org: Seq<char>, repo: Seq<char> },
    Branch { org: Seq<char>, repo: Seq<char>, branch: Seq<char> },
    BranchProtection { org: Seq<char>, repo: Seq<char>, branch: Seq<char> },
    CreateTeam { org: Seq<char>, name: Seq<char>, description: Seq<char>, privacy: TeamPrivacy },
    EditTeam {
        org: Seq<char>,
        name: Seq<char>,
        new_name: Option<Seq<char>>,
        new_description: Option<Seq<char>>,
        new_privacy: Option<TeamPrivacy>,
    },
    DeleteTeam { org: Seq<char>, name: Seq<char> },
    SetTeamMembership { org: Seq<char>, team: Seq<char>, user: Seq<char>, role: TeamRole },
    RemoveTeamMembership { org: Seq<char>, team: Seq<char>, user: Seq<char> },
    CreateRepo { org: Seq<char>, name: Seq<char>, description: Seq<char> },
    EditRepo { org: Seq<char>, name: Seq<char>, description: Seq<char> },
    UpdateTeamRepoPermissions {
        org: Seq<char>,
        repo: Seq<char>,
        team: Seq<char>,
        permission: RepoPermission,
    },
    UpdateUserRepoPermissions {
        org: Seq<char>,
        repo: Seq<char>,
        user: Seq<char>,
        permission: RepoPermission,
    },
    RemoveTeamFromRepo { org: Seq<char>, repo: Seq<char>, team: Seq<char> },
    RemoveCollaboratorFromRepo { org: Seq<char>, repo: Seq<char>, user: Seq<char> },
    CreateBranch { org: Seq<char>, repo: Seq<char>, branch: Seq<char>, commit: Seq<char> },
    UpdateBranchProtection {
        org: Seq<char>,
        repo: Seq<char>,
        branch: Seq<char>,
        protection: BranchProtectionView,
    },
    DeleteBranchProtection { org: Seq<char>, repo: Seq<char>, branch: Seq<char> },
}

impl DeepView for Request {
    type V = RequestView;

    open spec fn deep_view(&self) -> RequestView {
        match self {
            Request::OrgTeams { org } => RequestView::OrgTeams { org: org@ },
            Request::Team { org, name } => RequestView::Team { org: org@, name: name@ },
            Request::TeamMemberships { org, of_team } => RequestView::TeamMemberships {
                org: org@,
                of_team: of_team.deep_view(),
            },
            Request::Repo { org, name } => RequestView::Repo { org: org@, name: name@ },
            Request::RepoTeams { org, repo } => RequestView::RepoTeams { org: org@, repo: repo@ },
            Request::RepoCollaborators { org, repo } => RequestView::RepoCollaborators {
                org: org@,
                repo: repo@,
            },
            Request::ProtectedBranches { org, repo } => RequestView::ProtectedBranches {
                org: org@,
                repo: repo@,
            },
            Request::Branch { org, repo, branch } => RequestView::Branch {
                org: org@,
                repo: repo@,
                branch: branch@,
            },
            Request::BranchProtection { org, repo, branch } => RequestView::BranchProtection {
                org: org@,
                repo: repo@,
                branch: branch@,
            },
            Request::CreateTeam { org, name, description, privacy } => RequestView::CreateTeam {
                org: org@,
                name: name@,
                description: description@,
                privacy: *privacy,
            },
            Request::EditTeam {
                org,
                name,
                new_name,
                new_description,
                new_privacy,
            } => RequestView::EditTeam {
                org: org@,
                name: name@,
                new_name: new_name.deep_view(),
                new_description: new_description.deep_view(),
                new_privacy: *new_privacy,
            },
            Request::DeleteTeam { org, name } => RequestView::DeleteTeam { org: org@, name: name@ },
            Request::SetTeamMembership { org, team, user, role } => RequestView::SetTeamMembership {
                org: org@,
                team: team@,
                user: user@,
                role: *role,
            },
            Request::RemoveTeamMembership { org, team, user } => RequestView::RemoveTeamMembership {
                org: org@,
                team: team@,
                user: user@,
            },
            Request::CreateRepo { org, name, description } => RequestView::CreateRepo {
                org: org@,
                name: name@,
                description: description@,
            },
            Request::EditRepo { org, name, description } => RequestView::EditRepo {
                org: org@,
                name: name@,
                description: description@,
            },
            Request::UpdateTeamRepoPermissions {
                org,
                repo,
                team,
                permission,
            } => RequestView::UpdateTeamRepoPermissions {
                org: org@,
                repo: repo@,
                team: team@,
                permission: *permission,
            },
            Request::UpdateUserRepoPermissions {
                org,
                repo,
                user,
                permission,
            } => RequestView::UpdateUserRepoPermissions {
                org: org@,
                repo: repo@,
                user: user@,
                permission: *permission,
            },
            Request::RemoveTeamFromRepo { org, repo, team } => RequestView::RemoveTeamFromRepo {
                org: org@,
                repo: repo@,
                team: team@,
            },
            Request::RemoveCollaboratorFromRepo {
                org,
                repo,
                user,
            } => RequestView::RemoveCollaboratorFromRepo {
                org: org@,
                repo: repo@,
                user: user@,
            },
            Request::CreateBranch { org, repo, branch, commit } => RequestView::CreateBranch {
                org: org@,
                repo: repo@,
                branch: branch@,
                commit: commit@,
            },
            Request::UpdateBranchProtection {
                org,
                repo,
                branch,
                protection,
            } => RequestView::UpdateBranchProtection {
                org: org@,
                repo: repo@,
                branch: branch@,
                protection: protection.deep_view(),
            },
            Request::DeleteBranchProtection {
                org,
                repo,
                branch,
            } => RequestView::DeleteBranchProtection {
                org: org@,
                repo: repo@,
                branch: branch@,
            },
        }
    }
}

impl Clone for Request {
    fn clone(&self) -> (copy: Self)
        ensures
            copy.deep_view() == self.deep_view(),
    {
        match self {
            Request::OrgTeams { org } => Request::OrgTeams { org: org.clone() },
            Request::Team { org, name } => Request::Team { org: org.clone(), name: name.clone() },
            Request::TeamMemberships { org, of_team } => Request::TeamMemberships {
                org: org.clone(),
                of_team: of_team.clone(),
            },
            Request::Repo { org, name } => Request::Repo { org: org.clone(), name: name.clone() },
            Request::RepoTeams { org, repo } => Request::RepoTeams {
                org: org.clone(),
                repo: repo.clone(),
            },
            Request::RepoCollaborators { org, repo } => Request::RepoCollaborators {
                org: org.clone(),
                repo: repo.clone(),
            },
            Request::ProtectedBranches { org, repo } => Request::ProtectedBranches {
                org: org.clone(),
                repo: repo.clone(),
            },
            Request::Branch { org, repo, branch } => Request::Branch {
                org: org.clone(),
                repo: repo.clone(),
                branch: branch.clone(),
            },
            Request::BranchProtection { org, repo, branch } => Request::BranchProtection {
                org: org.clone(),
                repo: repo.clone(),
                branch: branch.clone(),
            },
            Request::CreateTeam { org, name, description, privacy } => Request::CreateTeam {
                org: org.clone(),
                name: name.clone(),
                description: description.clone(),
                privacy: *privacy,
            },
            Request::EditTeam {
                org,
                name,
                new_name,
                new_description,
                new_privacy,
            } => Request::EditTeam {
                org: org.clone(),
                name: name.clone(),
                new_name: copy_option(new_name),
                new_description: copy_option(new_description),
                new_privacy: *new_privacy,
            },
            Request::DeleteTeam { org, name } => Request::DeleteTeam {
                org: org.clone(),
                name: name.clone(),
            },
            Request::SetTeamMembership { org, team, user, role } => Request::SetTeamMembership {
                org: org.clone(),
                team: team.clone(),
                user: user.clone(),
                role: *role,
            },
            Request::RemoveTeamMembership { org, team, user } => Request::RemoveTeamMembership {
                org: org.clone(),
                team: team.clone(),
                user: user.clone(),
            },
            Request::CreateRepo { org, name, description } => Request::CreateRepo {
                org: org.clone(),
                name: name.clone(),
                description: description.clone(),
            },
            Request::EditRepo { org, name, description } => Request::EditRepo {
                org: org.clone(),
                name: name.clone(),
                description: description.clone(),
            },
            Request::UpdateTeamRepoPermissions {
                org,
                repo,
                team,
                permission,
            } => Request::UpdateTeamRepoPermissions {
                org: org.clone(),
                repo: repo.clone(),
                team: team.clone(),
                permission: *permission,
            },
            Request::UpdateUserRepoPermissions {
                org,
                repo,
                user,
                permission,
            } => Request::UpdateUserRepoPermissions {
                org: org.clone(),
                repo: repo.clone(),
                user: user.clone(),
                permission: *permission,
            },
            Request::RemoveTeamFromRepo { org, repo, team } => Request::RemoveTeamFromRepo {
                org: org.clone(),
                repo: repo.clone(),
                team: team.clone(),
            },
            Request::RemoveCollaboratorFromRepo {
                org,
                repo,
                user,
            } => Request::RemoveCollaboratorFromRepo {
                org: org.clone(),
                repo: repo.clone(),
                user: user.clone(),
            },
            Request::CreateBranch { org, repo, branch, commit } => Request::CreateBranch {
                org: org.clone(),
                repo: repo.clone(),
                branch: branch.clone(),
                commit: commit.clone(),
            },
            Request::UpdateBranchProtection {
                org,
                repo,
                branch,
                protection,
            } => Request::UpdateBranchProtection {
                org: org.clone(),
                repo: repo.clone(),
                branch: branch.clone(),
                protection: protection.clone(),
            },
            Request::DeleteBranchProtection {
                org,
                repo,
                branch,
            } => Request::DeleteBranchProtection {
                org: org.clone(),
                repo: repo.clone(),
                branch: branch.clone(),
            },
        }
    }
}

/// What GitHub answers.
#[derive(PartialEq, Debug)]
pub enum Reply {
    OrgTeams(Vec<String>),
    Team(Option<Team>),
    TeamMemberships(Vec<(usize, TeamMember)>),
    Repo(Option<Repo>),
    RepoTeams(Vec<RepoTeam>),
    RepoCollaborators(Vec<RepoUser>),
    ProtectedBranches(Vec<String>),
    Branch(Option<String>),
    BranchProtection(Option<BranchProtection>),
    CreatedRepo(Repo),
    ProtectionUpdated(bool),
    /// The call was carried out and there is nothing to tell.
    Done,
}

pub enum ReplyView {
    OrgTeams(Seq<Seq<char>>),
    Team(Option<TeamView>),
    TeamMemberships(Seq<(usize, TeamMemberView)>),
    Repo(Option<RepoView>),
    RepoTeams(Seq<RepoTeamView>),
    RepoCollaborators(Seq<RepoUserView>),
    ProtectedBranches(Seq<Seq<char>>),
    Branch(Option<Seq<char>>),
    BranchProtection(Option<BranchProtectionView>),
    CreatedRepo(RepoView),
    ProtectionUpdated(bool),
    Done,
}

impl DeepView for Reply {
    type V = ReplyView;

    open spec fn deep_view(&self) -> ReplyView {
        match self {
            Reply::OrgTeams(names) => ReplyView::OrgTeams(names.deep_view()),
            Reply::Team(team) => ReplyView::Team(team.deep_view()),
            Reply::TeamMemberships(members) => ReplyView::TeamMemberships(members.deep_view()),
            Reply::Repo(repo) => ReplyView::Repo(repo.deep_view()),
            Reply::RepoTeams(teams) => ReplyView::RepoTeams(teams.deep_view()),
            Reply::RepoCollaborators(users) => ReplyView::RepoCollaborators(users.deep_view()),
            Reply::ProtectedBranches(names) => ReplyView::ProtectedBranches(names.deep_view()),
            Reply::Branch(commit) => ReplyView::Branch(commit.deep_view()),
            Reply::BranchProtection(protection) => ReplyView::BranchProtection(
                protection.deep_view(),
            ),
            Reply::CreatedRepo(repo) => ReplyView::CreatedRepo(repo.deep_view()),
            Reply::ProtectionUpdated(updated) => ReplyView::ProtectionUpdated(*updated),
            Reply::Done => ReplyView::Done,
        }
    }
}

/// Whether a reply is of the kind that a request is answered with.
pub open spec fn answers(request: RequestView, reply: ReplyView) -> bool {
    match request {
        RequestView::OrgTeams { .. } => reply is OrgTeams,
        RequestView::Team { .. } => reply is Team,
        RequestView::TeamMemberships { .. } => reply is TeamMemberships,
        RequestView::Repo { .. } => reply is Repo,
        RequestView::RepoTeams { .. } => reply is RepoTeams,
        RequestView::RepoCollaborators { .. } => reply is RepoCollaborators,
        RequestView::ProtectedBranches { .. } => reply is ProtectedBranches,
        RequestView::Branch { .. } => reply is Branch,
        RequestView::BranchProtection { .. } => reply is BranchProtection,
        RequestView::CreateRepo { .. } => reply is CreatedRepo,
        RequestView::UpdateBranchProtection { .. } => reply is ProtectionUpdated,
        _ => reply is Done,
    }
}

/// Whether a call only reads.
pub open spec fn reads(request: RequestView) -> bool {
    match request {
        RequestView::OrgTeams { .. }
        | RequestView::Team { .. }
        | RequestView::TeamMemberships { .. }
        | RequestView::Repo { .. }
        | RequestView::RepoTeams { .. }
        | RequestView::RepoCollaborators { .. }
        | RequestView::ProtectedBranches { .. }
        | RequestView::Branch { .. }
        | RequestView::BranchProtection { .. } => true,
        _ => false,
    }
}

impl Reply {
    /// Tells whether this is the kind of reply that `request` is answered with.
    pub fn answers(&self, request: &Request) -> (fitting: bool)
        ensures
            fitting == answers(request.deep_view(), self.deep_view()),
    {
        match (request, self) {
            (Request::OrgTeams { .. }, Reply::OrgTeams(_)) => true,
            (Request::Team { .. }, Reply::Team(_)) => true,
            (Request::TeamMemberships { .. }, Reply::TeamMemberships(_)) => true,
            (Request::Repo { .. }, Reply::Repo(_)) => true,
            (Request::RepoTeams { .. }, Reply::RepoTeams(_)) => true,
            (Request::RepoCollaborators { .. }, Reply::RepoCollaborators(_)) => true,
            (Request::ProtectedBranches { .. }, Reply::ProtectedBranches(_)) => true,
            (Request::Branch { .. }, Reply::Branch(_)) => true,
            (Request::BranchProtection { .. }, Reply::BranchProtection(_)) => true,
            (Request::CreateRepo { .. }, Reply::CreatedRepo(_)) => true,
            (Request::UpdateBranchProtection { .. }, Reply::ProtectionUpdated(_)) => true,
            (Request::OrgTeams { .. }, _) => false,
            (Request::Team { .. }, _) => false,
            (Request::TeamMemberships { .. }, _) => false,
            (Request::Repo { .. }, _) => false,
            (Request::RepoTeams { .. }, _) => false,
            (Request::RepoCollaborators { .. }, _) => false,
            (Request::ProtectedBranches { .. }, _) => false,
            (Request::Branch { .. }, _) => false,
            (Request::BranchProtection { .. }, _) => false,
            (Request::CreateRepo { .. }, _) => false,
            (Request::UpdateBranchProtection { .. }, _) => false,
            (_, Reply::Done) => true,
            _ => false,
        }
    }
}

} // verus!
