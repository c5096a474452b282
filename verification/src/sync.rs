//! The wanted state together with what was looked up about people.
use std::collections::HashMap;

use vstd::prelude::*;

use crate::api::TeamRole;
use crate::lists::{
    contains_id, distinct, distinct_names, find_name, keys, law_distinct, lookup,
};
use crate::team_data::{GitHubTeam, GitHubTeamView, Repo, RepoView, Team, TeamView};

verus! {

/// Everything that the wanted state of GitHub is made of: the teams and repositories of the
/// team repository, the usernames of the people in it, and the owners of its organizations.
pub struct SyncGitHub {
    pub teams: Vec<Team>,
    pub repos: Vec<Repo>,
    pub usernames_cache: HashMap<usize, String>,
    pub org_owners: Vec<(String, Vec<usize>)>,
}

pub struct SyncGitHubView {
    pub teams: Seq<TeamView>,
    pub repos: Seq<RepoView>,
    pub usernames: Map<usize, Seq<char>>,
    pub org_owners: Seq<(Seq<char>, Seq<usize>)>,
}

impl DeepView for SyncGitHub {
    type V = SyncGitHubView;

    open spec fn deep_view(&self) -> SyncGitHubView {
        SyncGitHubView {
            teams: self.teams.deep_view(),
            repos: self.repos.deep_view(),
            usernames: self.usernames_cache@.map_values(|name: String| name@),
            org_owners: self.org_owners.deep_view(),
        }
    }
}

/// The GitHub teams of one team.
pub open spec fn mirrors(team: TeamView) -> Seq<GitHubTeamView> {
    match team.github {
        Some(github) => github.teams,
        None => Seq::empty(),
    }
}

/// The GitHub teams of all teams, in their order.
pub open spec fn github_teams(teams: Seq<TeamView>) -> Seq<GitHubTeamView>
    decreases teams.len(),
{
    if teams.len() == 0 {
        Seq::empty()
    } else {
        github_teams(teams.drop_last()) + mirrors(teams.last())
    }
}

/// The ids of the members of some GitHub teams, team after team.
pub open spec fn all_members(teams: Seq<GitHubTeamView>) -> Seq<usize>
    decreases teams.len(),
{
    if teams.len() == 0 {
        Seq::empty()
    } else {
        all_members(teams.drop_last()) + teams.last().members
    }
}

/// The organizations of the GitHub teams of all teams, each of them once.
pub open spec fn org_names(teams: Seq<TeamView>) -> Seq<Seq<char>> {
    distinct(github_teams(teams).map_values(|team: GitHubTeamView| team.org))
}

/// Each organization with the owners at its place.
pub open spec fn with_owners(orgs: Seq<Seq<char>>, owners: Seq<Seq<usize>>) -> Seq<
    (Seq<char>, Seq<usize>),
> {
    Seq::new(orgs.len(), |i: int| (orgs[i], owners[i]))
}

/// The role that a user is to have in the teams of an organization.
pub open spec fn role_of(
    org_owners: Seq<(Seq<char>, Seq<usize>)>,
    org: Seq<char>,
    user: usize,
) -> TeamRole {
    match lookup(org_owners, org) {
        Some(owners) => if owners.contains(user) {
            TeamRole::Maintainer
        } else {
            TeamRole::Member
        },
        None => TeamRole::Member,
    }
}

impl SyncGitHub {
    /// Puts the wanted state together. `usernames_cache` is to hold the usernames of
    /// `SyncGitHub::users`, and `owners` the owners of each of `SyncGitHub::orgs`, in that order.
    /// Owners are held for exactly these organizations, each of them once.
    pub fn new(
        teams: Vec<Team>,
        repos: Vec<Repo>,
        usernames_cache: HashMap<usize, String>,
        owners: Vec<Vec<usize>>,
    ) -> (sync: Self)
        requires
            owners.len() == org_names(teams.deep_view()).len(),
        ensures
            sync.teams == teams,
            sync.repos == repos,
            sync.usernames_cache == usernames_cache,
            sync.deep_view().org_owners == with_owners(
                org_names(teams.deep_view()),
                owners.deep_view(),
            ),
            keys(sync.deep_view().org_owners) == org_names(teams.deep_view()),
            keys(sync.deep_view().org_owners).no_duplicates(),
    {
        let org_owners = SyncGitHub::owners_by_org(&teams, owners);
        SyncGitHub { teams, repos, usernames_cache, org_owners }
    }

    /// Pairs the organizations of all GitHub teams with their owners. `owners` is to hold the
    /// owners of each of `SyncGitHub::orgs`, in that order.
    pub fn owners_by_org(teams: &Vec<Team>, owners: Vec<Vec<usize>>) -> (pairs: Vec<
        (String, Vec<usize>),
    >)
        requires
            owners.len() == org_names(teams.deep_view()).len(),
        ensures
            pairs.deep_view() == with_owners(org_names(teams.deep_view()), owners.deep_view()),
            keys(pairs.deep_view()) == org_names(teams.deep_view()),
            keys(pairs.deep_view()).no_duplicates(),
    {
        let orgs = SyncGitHub::orgs(teams);
        let ghost names = orgs.deep_view();
        assert(names.len() == orgs.len());
        let mut pairs: Vec<(String, Vec<usize>)> = Vec::new();
        for i in 0..orgs.len()
            invariant
                owners.len() == orgs.len(),
                pairs.len() == i,
                forall|j: int|
                    0 <= j < i ==> #[trigger] pairs@[j].deep_view() == (
                        orgs@[j]@,
                        owners@[j].deep_view(),
                    ),
        {
            let owners_of_org = owners[i].clone();
            assert(owners_of_org.deep_view() =~= owners@[i as int].deep_view());
            pairs.push((orgs[i].clone(), owners_of_org));
        }
        proof {
            assert(pairs.deep_view() =~= with_owners(names, owners.deep_view()));
            assert(keys(pairs.deep_view()) =~= names);
            law_distinct(
                github_teams(teams.deep_view()).map_values(|team: GitHubTeamView| team.org),
            );
        }
        pairs
    }

    /// Lists the GitHub teams of all teams, in their order.
    pub fn github_teams(teams: &Vec<Team>) -> (flat: Vec<GitHubTeam>)
        ensures
            flat.deep_view() == github_teams(teams.deep_view()),
    {
        let ghost all = teams.deep_view();
        let mut flat: Vec<GitHubTeam> = Vec::new();
        assert(flat.deep_view() =~= github_teams(all.take(0)));
        for i in 0..teams.len()
            invariant
                all == teams.deep_view(),
                flat.deep_view() == github_teams(all.take(i as int)),
        {
            proof {
                assert(all.take(i + 1).drop_last() =~= all.take(i as int));
                assert(all.take(i + 1).last() == all[i as int]);
            }
            match &teams[i].github {
                Some(github) => {
                    let mut more = github.teams.clone();
                    let ghost before = flat.deep_view();
                    assert(more.deep_view() =~= github.teams.deep_view());
                    let ghost added = more.deep_view();
                    flat.append(&mut more);
                    assert(flat.deep_view() =~= before + added);
                },
                None => {
                    assert(flat.deep_view() =~= flat.deep_view() + mirrors(all[i as int]));
                },
            }
        }
        assert(all.take(teams.len() as int) =~= all);
        flat
    }

    /// Lists the people whose usernames have to be known: the members of all GitHub teams,
    /// each of them once.
    pub fn users(teams: &Vec<Team>) -> (users: Vec<usize>)
        ensures
            users@ == distinct(all_members(github_teams(teams.deep_view()))),
    {
        let flat = SyncGitHub::github_teams(teams);
        let ghost all = flat.deep_view();
        let mut users: Vec<usize> = Vec::new();
        for i in 0..flat.len()
            invariant
                all == flat.deep_view(),
                users@ == distinct(all_members(all.take(i as int))),
        {
            let members = &flat[i].members;
            let ghost earlier = all_members(all.take(i as int));
            assert(earlier =~= earlier + members@.take(0));
            for j in 0..members.len()
                invariant
                    users@ == distinct(earlier + members@.take(j as int)),
            {
                proof {
                    let next = earlier + members@.take(j + 1);
                    assert(next.drop_last() =~= earlier + members@.take(j as int));
                    assert(next.last() == members@[j as int]);
                }
                if !contains_id(&users, members[j]) {
                    users.push(members[j]);
                }
            }
            proof {
                assert(members@.take(members.len() as int) =~= members@);
                assert(all.take(i + 1).drop_last() =~= all.take(i as int));
                assert(all.take(i + 1).last() == all[i as int]);
            }
        }
        assert(all.take(flat.len() as int) =~= all);
        users
    }

    /// Lists the organizations whose owners have to be known: those of all GitHub teams, each
    /// of them once.
    pub fn orgs(teams: &Vec<Team>) -> (orgs: Vec<String>)
        ensures
            orgs.deep_view() == org_names(teams.deep_view()),
    {
        let flat = SyncGitHub::github_teams(teams);
        let mut orgs: Vec<String> = Vec::new();
        for i in 0..flat.len()
            invariant
                orgs.len() == i,
                forall|j: int| 0 <= j < i ==> #[trigger] orgs@[j]@ == flat@[j].org@,
        {
            orgs.push(flat[i].org.clone());
        }
        assert(orgs.deep_view() =~= flat.deep_view().map_values(|team: GitHubTeamView| team.org));
        distinct_names(&orgs)
    }

    /// Gives the role that a user is to have in the teams of an organization: owners of the
    /// organization maintain its teams.
    pub fn expected_role(&self, org: &String, user: usize) -> (role: TeamRole)
        ensures
            role == role_of(self.deep_view().org_owners, org@, user),
    {
        match find_name(&self.org_owners, org) {
            Some(owners) => {
                assert(owners.deep_view() =~= owners@);
                if contains_id(owners, user) {
                    TeamRole::Maintainer
                } else {
                    TeamRole::Member
                }
            },
            None => TeamRole::Member,
        }
    }
}

} // verus!
