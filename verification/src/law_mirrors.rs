//! Laws about the GitHub teams of all teams, and about the people and organizations in them.
use vstd::prelude::*;

use crate::api::TeamRole;
use crate::call::{ReplyView, RequestView};
use crate::diff::{DeleteTeamDiffView, TeamDiffView};
use crate::law_diff::{difference, team_there};
use crate::law_lists::{last_of, law_the_last_entry_counts};
use crate::law_rules::law_bots_teams;
use crate::law_teams::{is_wanted, law_deleted_teams};
use crate::lists::{distinct, law_distinct, lookup};
use crate::sync::{all_members, github_teams, org_names, role_of, SyncGitHubView};
use crate::team_data::{GitHubTeamView, TeamView};
use crate::teams::{team_deletions, team_diff};

verus! {

/// The number of GitHub teams of one team.
pub open spec fn mirror_count(team: TeamView) -> nat {
    if team.github is Some {
        team.github->0.teams.len()
    } else {
        0
    }
}

/// The number of GitHub teams of some teams.
pub open spec fn mirror_counts(teams: Seq<TeamView>) -> nat
    decreases teams.len(),
{
    if teams.len() == 0 {
        0
    } else {
        mirror_counts(teams.drop_last()) + mirror_count(teams.last())
    }
}

/// Whether there is a GitHub team at a place among those of a team.
pub open spec fn is_mirror(teams: Seq<TeamView>, i: int, j: int) -> bool {
    &&& 0 <= i < teams.len()
    &&& teams[i].github is Some
    &&& 0 <= j < teams[i].github->0.teams.len()
}

/// Whether a GitHub team is one of those of some teams.
pub open spec fn has_mirror(teams: Seq<TeamView>, mirror: GitHubTeamView) -> bool {
    exists|i: int, j: int| #[trigger]
        is_mirror(teams, i, j) && teams[i].github->0.teams[j] == mirror
}

/// All GitHub teams of all teams are managed, and nothing else is: there are as many as all teams
/// have together, and each stands behind those of the teams before it and those before it in
/// its own team.
pub proof fn law_every_mirror_is_managed(teams: Seq<TeamView>)
    ensures
        github_teams(teams).len() == mirror_counts(teams),
        forall|i: int, j: int| #[trigger]
            is_mirror(teams, i, j) ==> {
                &&& mirror_counts(teams.take(i)) + j < github_teams(teams).len()
                &&& github_teams(teams)[mirror_counts(teams.take(i)) + j]
                    == teams[i].github->0.teams[j]
            },
        forall|k: int|
            0 <= k < github_teams(teams).len() ==> has_mirror(
                teams,
                #[trigger] github_teams(teams)[k],
            ),
    decreases teams.len(),
{
    if teams.len() > 0 {
        let earlier = teams.drop_last();
        let n = teams.len() - 1;
        let all = github_teams(teams);
        law_every_mirror_is_managed(earlier);
        assert(teams.last() == teams[n]);
        assert(teams.take(n) =~= earlier);
        assert forall|i: int, j: int| #[trigger] is_mirror(teams, i, j) implies {
            &&& mirror_counts(teams.take(i)) + j < all.len()
            &&& all[mirror_counts(teams.take(i)) + j] == teams[i].github->0.teams[j]
        } by {
            if i < n {
                assert(is_mirror(earlier, i, j));
                assert(earlier.take(i) =~= teams.take(i));
            }
        }
        assert forall|k: int| 0 <= k < all.len() implies has_mirror(teams, #[trigger] all[k]) by {
            let first = github_teams(earlier).len();
            if k < first {
                assert(github_teams(earlier)[k] == all[k]);
                assert(has_mirror(earlier, github_teams(earlier)[k]));
                let (i, j) = choose|i: int, j: int| #[trigger]
                    is_mirror(earlier, i, j) && earlier[i].github->0.teams[j] == github_teams(
                        earlier,
                    )[k];
                assert(is_mirror(teams, i, j));
            } else {
                assert(is_mirror(teams, n, k - first));
            }
        }
    } else {
        assert(github_teams(teams) =~= Seq::empty());
    }
}

/// A comparison gives a diff for every GitHub team of every team, and never the deletion of one.
pub proof fn law_every_mirror_is_compared(
    github: spec_fn(RequestView) -> ReplyView,
    sync: SyncGitHubView,
    listings: Seq<(Seq<char>, Seq<Seq<char>>)>,
    i: int,
    j: int,
)
    requires
        is_mirror(sync.teams, i, j),
    ensures
        ({
            let mirror = sync.teams[i].github->0.teams[j];
            let place = mirror_counts(sync.teams.take(i)) + j;
            &&& place < difference(github, sync).team_diffs.len()
            &&& difference(github, sync).team_diffs[place] == team_diff(
                sync,
                mirror,
                team_there(github, mirror),
            )
            &&& !team_deletions(sync, listings).contains(
                TeamDiffView::Delete(DeleteTeamDiffView { org: mirror.org, name: mirror.name }),
            )
        }),
{
    law_every_mirror_is_managed(sync.teams);
    let mirror = sync.teams[i].github->0.teams[j];
    let place = mirror_counts(sync.teams.take(i)) + j;
    let deletion = TeamDiffView::Delete(
        DeleteTeamDiffView { org: mirror.org, name: mirror.name },
    );
    law_deleted_teams(sync, listings);
    assert(is_mirror(sync.teams, i, j));
    assert(github_teams(sync.teams)[place] == mirror);
    if team_deletions(sync, listings).contains(deletion) {
        assert(!is_wanted(sync, "rust-lang"@, deletion->Delete_0.name));
        assert(github_teams(sync.teams)[place].org == "rust-lang"@);
    }
}

/// A team that was listed in the `rust-lang` organization is deleted if and only if it is none of
/// the bots' teams and no GitHub team of any team; nothing else is deleted.
pub proof fn law_only_unmanaged_teams_are_deleted(
    sync: SyncGitHubView,
    listings: Seq<(Seq<char>, Seq<Seq<char>>)>,
    diff: TeamDiffView,
)
    ensures
        team_deletions(sync, listings).contains(diff) <==> {
            &&& diff is Delete
            &&& diff->Delete_0.org == "rust-lang"@
            &&& !seq!["bors"@, "highfive"@, "rfcbot"@, "bots"@].contains(diff->Delete_0.name)
            &&& forall|i: int, j: int| #[trigger]
                is_mirror(sync.teams, i, j) ==> !(sync.teams[i].github->0.teams[j].org
                    == "rust-lang"@ && sync.teams[i].github->0.teams[j].name
                    == diff->Delete_0.name)
            &&& exists|listed: Seq<Seq<char>>| #[trigger]
                last_of(listings, "rust-lang"@, listed) && listed.contains(diff->Delete_0.name)
        },
{
    let name = diff->Delete_0.name;
    let teams = github_teams(sync.teams);
    law_deleted_teams(sync, listings);
    law_every_mirror_is_managed(sync.teams);
    law_bots_teams(name);
    law_the_last_entry_counts(listings, "rust-lang"@);
    let wanted = exists|i: int, j: int| #[trigger]
        is_mirror(sync.teams, i, j) && sync.teams[i].github->0.teams[j].org == "rust-lang"@
            && sync.teams[i].github->0.teams[j].name == name;
    if is_wanted(sync, "rust-lang"@, name) {
        let k = choose|k: int|
            0 <= k < teams.len() && (#[trigger] teams[k]).org == "rust-lang"@ && teams[k].name
                == name;
        assert(has_mirror(sync.teams, teams[k]));
        let (i, j) = choose|i: int, j: int| #[trigger]
            is_mirror(sync.teams, i, j) && sync.teams[i].github->0.teams[j] == teams[k];
        assert(is_mirror(sync.teams, i, j));
    }
    if wanted {
        let (i, j) = choose|i: int, j: int| #[trigger]
            is_mirror(sync.teams, i, j) && sync.teams[i].github->0.teams[j].org == "rust-lang"@
                && sync.teams[i].github->0.teams[j].name == name;
        let k = mirror_counts(sync.teams.take(i)) + j;
        assert(teams[k].org == "rust-lang"@ && teams[k].name == name);
    }
    assert(is_wanted(sync, "rust-lang"@, name) <==> wanted);
    if lookup(listings, "rust-lang"@) is Some {
        assert(last_of(listings, "rust-lang"@, lookup(listings, "rust-lang"@)->0));
    }
}

proof fn lemma_members(teams: Seq<GitHubTeamView>, user: usize)
    ensures
        all_members(teams).contains(user) <==> exists|i: int|
            0 <= i < teams.len() && (#[trigger] teams[i]).members.contains(user),
    decreases teams.len(),
{
    if teams.len() > 0 {
        let earlier = teams.drop_last();
        let n = teams.len() - 1;
        lemma_members(earlier, user);
        let first = all_members(earlier);
        let last = teams[n].members;
        assert(teams.last() == teams[n]);
        if all_members(teams).contains(user) {
            let k = choose|k: int|
                0 <= k < all_members(teams).len() && all_members(teams)[k] == user;
            if k < first.len() {
                assert(first[k] == user);
                let i = choose|i: int|
                    0 <= i < earlier.len() && (#[trigger] earlier[i]).members.contains(user);
                assert(teams[i].members.contains(user));
            } else {
                assert(last[k - first.len()] == user);
                assert(teams[n].members.contains(user));
            }
        }
        if exists|i: int| 0 <= i < teams.len() && (#[trigger] teams[i]).members.contains(user) {
            let i = choose|i: int|
                0 <= i < teams.len() && (#[trigger] teams[i]).members.contains(user);
            if i < n {
                assert(earlier[i].members.contains(user));
                let k = choose|k: int| 0 <= k < first.len() && first[k] == user;
                assert(all_members(teams)[k] == user);
            } else {
                let k = choose|k: int| 0 <= k < last.len() && last[k] == user;
                assert(all_members(teams)[first.len() + k] == user);
            }
        }
    }
}

/// The users that are looked up are exactly the members of the GitHub teams of all teams, each of
/// them once; and the organizations are exactly those of these GitHub teams, each once.
pub proof fn law_users_and_organizations(teams: Seq<TeamView>, user: usize, org: Seq<char>)
    ensures
        distinct(all_members(github_teams(teams))).no_duplicates(),
        distinct(all_members(github_teams(teams))).contains(user) <==> exists|i: int, j: int|
            #[trigger]
            is_mirror(teams, i, j) && teams[i].github->0.teams[j].members.contains(user),
        org_names(teams).no_duplicates(),
        org_names(teams).contains(org) <==> exists|i: int, j: int| #[trigger]
            is_mirror(teams, i, j) && teams[i].github->0.teams[j].org == org,
{
    let all = github_teams(teams);
    let orgs = all.map_values(|team: GitHubTeamView| team.org);
    law_every_mirror_is_managed(teams);
    law_distinct(all_members(all));
    law_distinct(orgs);
    lemma_members(all, user);
    assert(distinct(all_members(all)).contains(user) <==> all_members(all).contains(user));
    assert(distinct(orgs).contains(org) <==> orgs.contains(org));
    if exists|k: int| 0 <= k < all.len() && (#[trigger] all[k]).members.contains(user) {
        let k = choose|k: int| 0 <= k < all.len() && (#[trigger] all[k]).members.contains(user);
        assert(has_mirror(teams, all[k]));
        let (i, j) = choose|i: int, j: int| #[trigger]
            is_mirror(teams, i, j) && teams[i].github->0.teams[j] == all[k];
        assert(is_mirror(teams, i, j));
    }
    if exists|i: int, j: int| #[trigger]
        is_mirror(teams, i, j) && teams[i].github->0.teams[j].members.contains(user) {
        let (i, j) = choose|i: int, j: int| #[trigger]
            is_mirror(teams, i, j) && teams[i].github->0.teams[j].members.contains(user);
        assert(all[mirror_counts(teams.take(i)) + j].members.contains(user));
    }
    if orgs.contains(org) {
        let k = choose|k: int| 0 <= k < orgs.len() && orgs[k] == org;
        assert(all[k].org == org);
        assert(has_mirror(teams, all[k]));
        let (i, j) = choose|i: int, j: int| #[trigger]
            is_mirror(teams, i, j) && teams[i].github->0.teams[j] == all[k];
        assert(is_mirror(teams, i, j));
    }
    if exists|i: int, j: int| #[trigger]
        is_mirror(teams, i, j) && teams[i].github->0.teams[j].org == org {
        let (i, j) = choose|i: int, j: int| #[trigger]
            is_mirror(teams, i, j) && teams[i].github->0.teams[j].org == org;
        assert(orgs[mirror_counts(teams.take(i)) + j] == org);
    }
}

/// A user maintains the teams of an organization if and only if the user is among the owners that
/// are held for the organization.
pub proof fn law_owners_maintain(
    org_owners: Seq<(Seq<char>, Seq<usize>)>,
    org: Seq<char>,
    user: usize,
)
    ensures
        role_of(org_owners, org, user) == TeamRole::Maintainer <==> exists|owners: Seq<usize>|
            #[trigger]
            last_of(org_owners, org, owners) && owners.contains(user),
        role_of(org_owners, org, user) == TeamRole::Maintainer || role_of(org_owners, org, user)
            == TeamRole::Member,
{
    law_the_last_entry_counts(org_owners, org);
    if lookup(org_owners, org) is Some {
        assert(last_of(org_owners, org, lookup(org_owners, org)->0));
    }
}

} // verus!
