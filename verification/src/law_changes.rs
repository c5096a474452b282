//! Laws about what a comparison finds of a branch, a repository and a team, field by field.
use vstd::prelude::*;

use crate::api::{BranchProtectionView, TeamMemberView, TeamRole};
use crate::branches::{
    branch_names, branch_protection_diffs, stray_protections, wanted_branch_diffs, BranchStateView,
};
use crate::call::{ReplyView, RequestView};
use crate::diff::{BranchProtectionDiffOperationView, MemberDiff};
use crate::law_diff::{difference, listings_there, repo_there, team_there};
use crate::law_grants::in_order;
use crate::law_lists::{last_of, law_the_last_entry_counts};
use crate::lists::{
    distinct, keys, latest, law_distinct, lemma_kept, lemma_latest, lemma_lookup,
    lemma_lookup_entry, lemma_unclaimed, lookup, unclaimed,
};
use crate::permissions::permission_diffs;
use crate::repos::{initial_permissions, repo_diff, ActualRepoView};
use crate::rules::{wanted_protection, DEFAULT_DESCRIPTION, DEFAULT_PRIVACY};
use crate::sync::{github_teams, org_names, role_of, SyncGitHubView};
use crate::team_data::{BranchView, GitHubTeamView, RepoView};
use crate::teams::{
    member_diffs, team_deletions, team_diff, wanted_member_diffs, ActualTeamView,
};

verus! {

/// Whether an operation is what a branch needs: one that is missing is created at the head of
/// the main branch, one without a protection gets one, and another protection is replaced; always
/// by the wanted one.
pub open spec fn is_needed(
    operation: BranchProtectionDiffOperationView,
    wanted: BranchProtectionView,
    state: BranchStateView,
) -> bool {
    match operation {
        BranchProtectionDiffOperationView::CreateWithBranch(protection, commit) => {
            &&& protection == wanted
            &&& state == BranchStateView::Missing { head: commit }
        },
        BranchProtectionDiffOperationView::Create(protection) => {
            &&& protection == wanted
            &&& state == BranchStateView::Present { protection: None }
        },
        BranchProtectionDiffOperationView::Update(old_protection, protection) => {
            &&& protection == wanted
            &&& protection != old_protection
            &&& state == BranchStateView::Present { protection: Some(old_protection) }
        },
        BranchProtectionDiffOperationView::Delete => false,
    }
}

proof fn lemma_wanted_branch_diffs(
    repo: RepoView,
    branches: Seq<BranchView>,
    states: Seq<BranchStateView>,
) -> (places: Seq<int>)
    ensures
        ({
            let diffs = wanted_branch_diffs(repo, branches, states);
            &&& places.len() == diffs.len()
            &&& in_order(places, branches.len() as int)
            &&& forall|k: int|
                0 <= k < places.len() ==> {
                    &&& diffs[k].name == branches[#[trigger] places[k]].name
                    &&& is_needed(
                        diffs[k].operation,
                        wanted_protection(repo, branches[places[k]]),
                        states[places[k]],
                    )
                }
            &&& forall|i: int|
                0 <= i < branches.len() && !places.contains(i) ==> #[trigger] states[i] == (
                BranchStateView::Present {
                    protection: Some(wanted_protection(repo, branches[i])),
                })
        }),
    decreases branches.len(),
{
    if branches.len() == 0 {
        Seq::empty()
    } else {
        let earlier = branches.drop_last();
        let n = branches.len() - 1;
        let before = wanted_branch_diffs(repo, earlier, states);
        let diffs = wanted_branch_diffs(repo, branches, states);
        let rest = lemma_wanted_branch_diffs(repo, earlier, states);
        assert(branches[n] == branches.last());
        assert forall|k: int| 0 <= k < rest.len() implies diffs[k] == before[k]
            && earlier[#[trigger] rest[k]] == branches[rest[k]] by {
        }
        if diffs.len() == before.len() {
            rest
        } else {
            let places = rest.push(n);
            assert forall|i: int| 0 <= i < branches.len() && !places.contains(i) implies #[trigger]
                states[i] == (BranchStateView::Present {
                protection: Some(wanted_protection(repo, branches[i])),
            }) by {
                assert(places[rest.len() as int] == n);
                assert(!rest.contains(i)) by {
                    if rest.contains(i) {
                        let k = choose|k: int| 0 <= k < rest.len() && rest[k] == i;
                        assert(places[k] == i);
                    }
                }
                assert(earlier[i] == branches[i]);
            }
            places
        }
    }
}

/// The protections that are removed are exactly those of the protected branches that the
/// repository does not name, each of them once.
pub proof fn law_stray_protections(repo: RepoView, protected: Seq<Seq<char>>, name: Seq<char>)
    ensures
        stray_protections(repo, protected).no_duplicates(),
        stray_protections(repo, protected).contains(name) <==> protected.contains(name) && forall|
            i: int,
        |
            0 <= i < repo.branches.len() ==> (#[trigger] repo.branches[i]).name != name,
{
    let keep = |name: Seq<char>| !branch_names(repo).contains(name);
    law_distinct(protected);
    lemma_kept(distinct(protected), keep);
    assert(stray_protections(repo, protected).contains(name) <==> distinct(protected).contains(
        name,
    ) && keep(name));
    assert(distinct(protected).contains(name) <==> protected.contains(name));
    if branch_names(repo).contains(name) {
        let i = choose|i: int| 0 <= i < branch_names(repo).len() && branch_names(repo)[i] == name;
        assert(repo.branches[i].name == name);
    }
    if exists|i: int| 0 <= i < repo.branches.len() && (#[trigger] repo.branches[i]).name == name {
        let i = choose|i: int|
            0 <= i < repo.branches.len() && (#[trigger] repo.branches[i]).name == name;
        assert(branch_names(repo)[i] == name);
    }
}

/// The changes of the protections of a repository are what its branches need, in their order, and
/// then the removals. `places` tells which of the branches need something; the others have
/// exactly the wanted protection.
pub proof fn law_protection_diffs(
    repo: RepoView,
    states: Seq<BranchStateView>,
    protected: Seq<Seq<char>>,
) -> (places: Seq<int>)
    ensures
        ({
            let diffs = branch_protection_diffs(repo, states, protected);
            let removed = stray_protections(repo, protected);
            &&& diffs.len() == places.len() + removed.len()
            &&& in_order(places, repo.branches.len() as int)
            &&& forall|k: int|
                0 <= k < places.len() ==> {
                    &&& diffs[k].name == repo.branches[#[trigger] places[k]].name
                    &&& is_needed(
                        diffs[k].operation,
                        wanted_protection(repo, repo.branches[places[k]]),
                        states[places[k]],
                    )
                }
            &&& forall|i: int|
                0 <= i < repo.branches.len() && !places.contains(i) ==> #[trigger] states[i] == (
                BranchStateView::Present {
                    protection: Some(wanted_protection(repo, repo.branches[i])),
                })
            &&& forall|k: int|
                places.len() <= k < diffs.len() ==> {
                    &&& (#[trigger] diffs[k]).name == removed[k - places.len()]
                    &&& diffs[k].operation is Delete
                }
        }),
{
    let places = lemma_wanted_branch_diffs(repo, repo.branches, states);
    let first = wanted_branch_diffs(repo, repo.branches, states);
    let diffs = branch_protection_diffs(repo, states, protected);
    assert(forall|k: int| 0 <= k < first.len() ==> diffs[k] == first[k]);
    places
}

/// A repository that is missing is created where it is wanted, with the wanted description, the
/// access that it is to give, and the protection that each of its branches is to have.
pub proof fn law_new_repo(wanted: RepoView)
    ensures
        ({
            let diff = repo_diff(wanted, None);
            let create = diff->Create_0;
            &&& diff is Create
            &&& create.org == wanted.org
            &&& create.name == wanted.name
            &&& create.description == wanted.description
            &&& create.permissions == initial_permissions(wanted)
            &&& create.branch_protections.len() == wanted.branches.len()
            &&& forall|i: int|
                0 <= i < wanted.branches.len() ==> {
                    &&& create.branch_protections[i].0 == (#[trigger] wanted.branches[i]).name
                    &&& create.branch_protections[i].1 == wanted_protection(
                        wanted,
                        wanted.branches[i],
                    )
                }
        }),
{
}

/// A repository that is there is updated in the organization in which it is wanted, under the
/// name by which it was found. A new name and a new description are the wanted ones, and there is
/// one if and only if the repository has another; the old description is that which it has. The
/// access and the protections are compared with those that were read.
pub proof fn law_changed_repo(wanted: RepoView, actual: ActualRepoView)
    ensures
        ({
            let diff = repo_diff(wanted, Some(actual));
            let update = diff->Update_0;
            &&& diff is Update
            &&& update.org == wanted.org
            &&& update.name == actual.repo.name
            &&& update.name_diff is Some <==> actual.repo.name != wanted.name
            &&& update.name_diff matches Some(name) ==> name == wanted.name
            &&& update.description_diff is Some <==> actual.repo.description != Some(
                wanted.description,
            )
            &&& update.description_diff matches Some((old_description, description))
                ==> old_description == actual.repo.description && description == wanted.description
            &&& update.permission_diffs == permission_diffs(
                wanted,
                actual.teams,
                actual.collaborators,
            )
            &&& update.branch_protection_diffs == branch_protection_diffs(
                wanted,
                actual.branches,
                actual.protected,
            )
        }),
{
}

/// A team that is missing is created where it is wanted, as managed teams are, with its members
/// in their order, each under its username and in its role.
pub proof fn law_new_team(sync: SyncGitHubView, wanted: GitHubTeamView)
    ensures
        ({
            let diff = team_diff(sync, wanted, None);
            let create = diff->Create_0;
            &&& diff is Create
            &&& create.org == wanted.org
            &&& create.name == wanted.name
            &&& create.description == DEFAULT_DESCRIPTION@
            &&& create.privacy == DEFAULT_PRIVACY
            &&& create.members.len() == wanted.members.len()
            &&& forall|i: int|
                0 <= i < wanted.members.len() ==> {
                    &&& create.members[i].0 == sync.usernames[#[trigger] wanted.members[i]]
                    &&& create.members[i].1 == role_of(
                        sync.org_owners,
                        wanted.org,
                        wanted.members[i],
                    )
                }
        }),
{
}

/// A team that is there is edited in the organization in which it is wanted, under the name by
/// which it was found. A new name is the wanted one, a new description and a new privacy are those
/// of managed teams, and there is one if and only if the team has another; the old ones are those
/// which it has. The members are compared with those that were read.
pub proof fn law_changed_team(sync: SyncGitHubView, wanted: GitHubTeamView, actual: ActualTeamView)
    ensures
        ({
            let diff = team_diff(sync, wanted, Some(actual));
            let edit = diff->Edit_0;
            &&& diff is Edit
            &&& edit.org == wanted.org
            &&& edit.name == actual.team.name
            &&& edit.name_diff is Some <==> actual.team.name != wanted.name
            &&& edit.name_diff matches Some(name) ==> name == wanted.name
            &&& edit.description_diff is Some <==> actual.team.description != DEFAULT_DESCRIPTION@
            &&& edit.description_diff matches Some((old_description, description))
                ==> old_description == actual.team.description && description
                == DEFAULT_DESCRIPTION@
            &&& edit.privacy_diff is Some <==> actual.team.privacy != DEFAULT_PRIVACY
            &&& edit.privacy_diff matches Some((old_privacy, privacy)) ==> old_privacy
                == actual.team.privacy && privacy == DEFAULT_PRIVACY
            &&& edit.member_diffs == member_diffs(sync, wanted, actual.members)
        }),
{
}

/// What a comparison reads of a team is what GitHub answers about the team: whether there is one of
/// the wanted name in its organization, and who is a member of it.
pub proof fn law_what_is_read_of_a_team(
    github: spec_fn(RequestView) -> ReplyView,
    team: GitHubTeamView,
)
    ensures
        ({
            let found = github(RequestView::Team { org: team.org, name: team.name })->Team_0;
            &&& team_there(github, team) is Some <==> found is Some
            &&& team_there(github, team) matches Some(there) ==> {
                &&& Some(there.team) == found
                &&& there.members == github(
                    RequestView::TeamMemberships { org: team.org, of_team: there.team },
                )->TeamMemberships_0
            }
        }),
{
}

/// What a comparison reads of a repository is what GitHub answers about the repository: whether
/// there is one of the wanted name in its organization, who has access to it, which of its
/// branches are protected; and of each branch that it is to have, whether it is there, and then its
/// protection, or else the head of the main branch.
pub proof fn law_what_is_read_of_a_repository(
    github: spec_fn(RequestView) -> ReplyView,
    repo: RepoView,
)
    ensures
        ({
            let found = github(RequestView::Repo { org: repo.org, name: repo.name })->Repo_0;
            &&& repo_there(github, repo) is Some <==> found is Some
            &&& repo_there(github, repo) matches Some(there) ==> {
                &&& Some(there.repo) == found
                &&& there.teams == github(
                    RequestView::RepoTeams { org: repo.org, repo: repo.name },
                )->RepoTeams_0
                &&& there.collaborators == github(
                    RequestView::RepoCollaborators { org: repo.org, repo: repo.name },
                )->RepoCollaborators_0
                &&& there.protected == github(
                    RequestView::ProtectedBranches { org: there.repo.org, repo: there.repo.name },
                )->ProtectedBranches_0
                &&& there.branches.len() == repo.branches.len()
                &&& forall|i: int|
                    0 <= i < repo.branches.len() ==> {
                        let branch = (#[trigger] repo.branches[i]).name;
                        let commit = github(
                            RequestView::Branch { org: repo.org, repo: repo.name, branch },
                        )->Branch_0;
                        let protection = github(
                            RequestView::BranchProtection {
                                org: there.repo.org,
                                repo: there.repo.name,
                                branch,
                            },
                        )->BranchProtection_0;
                        let head = github(
                            RequestView::Branch {
                                org: there.repo.org,
                                repo: there.repo.name,
                                branch: there.repo.default_branch,
                            },
                        )->Branch_0;
                        &&& commit is None ==> there.branches[i] == (BranchStateView::Missing {
                            head: head->0,
                        })
                        &&& commit is Some ==> there.branches[i] == (BranchStateView::Present {
                            protection,
                        })
                    }
            }
        }),
{
}

/// The difference is made of one diff for each GitHub team, in their order, then the deletions, and
/// one diff for each repository, in their order. Each team and each repository is compared with
/// what was read of it, and the deletions are found in the lists of the teams of every
/// organization.
pub proof fn law_difference(github: spec_fn(RequestView) -> ReplyView, sync: SyncGitHubView)
    ensures
        ({
            let teams = github_teams(sync.teams);
            let diff = difference(github, sync);
            let listings = Seq::new(
                org_names(sync.teams).len(),
                |i: int|
                    (
                        org_names(sync.teams)[i],
                        github(
                            RequestView::OrgTeams { org: org_names(sync.teams)[i] },
                        )->OrgTeams_0,
                    ),
            );
            &&& diff.team_diffs.len() == teams.len() + team_deletions(sync, listings).len()
            &&& forall|i: int|
                0 <= i < teams.len() ==> diff.team_diffs[i] == team_diff(
                    sync,
                    #[trigger] teams[i],
                    team_there(github, teams[i]),
                )
            &&& diff.team_diffs.skip(teams.len() as int) == team_deletions(sync, listings)
            &&& diff.repo_diffs.len() == sync.repos.len()
            &&& forall|i: int|
                0 <= i < sync.repos.len() ==> diff.repo_diffs[i] == repo_diff(
                    #[trigger] sync.repos[i],
                    repo_there(github, sync.repos[i]),
                )
        }),
{
    let teams = github_teams(sync.teams);
    let diff = difference(github, sync);
    let listings = Seq::new(
        org_names(sync.teams).len(),
        |i: int|
            (
                org_names(sync.teams)[i],
                github(RequestView::OrgTeams { org: org_names(sync.teams)[i] })->OrgTeams_0,
            ),
    );
    assert(listings_there(github, teams) =~= listings);
    assert(diff.team_diffs.skip(teams.len() as int) =~= team_deletions(sync, listings));
}

/// Whether a member is the last one that is listed under an id, in a role.
pub open spec fn has_role(
    actual: Seq<(usize, TeamMemberView)>,
    id: usize,
    role: TeamRole,
) -> bool {
    exists|member: TeamMemberView| #[trigger] last_of(actual, id, member) && member.role == role
}

/// Whether a member is the last one that is listed under an id, under a name.
pub open spec fn has_name(
    actual: Seq<(usize, TeamMemberView)>,
    id: usize,
    name: Seq<char>,
) -> bool {
    exists|member: TeamMemberView| #[trigger] last_of(actual, id, member) && member.username == name
}

/// Whether an id is listed.
pub open spec fn is_listed(actual: Seq<(usize, TeamMemberView)>, id: usize) -> bool {
    exists|k: int| 0 <= k < actual.len() && (#[trigger] actual[k]).0 == id
}

/// Whether an earlier member has the same id as one.
pub open spec fn is_repeated(members: Seq<usize>, i: int) -> bool {
    exists|j: int| 0 <= j < i && #[trigger] members[j] == members[i]
}

/// Whether a diff is what a wanted member needs: nothing if it is listed in the wanted role; that
/// role in place of the listed one if it is another; and to be added in that role if it is not
/// listed, or was compared before.
pub open spec fn member_needs(
    members: Seq<usize>,
    actual: Seq<(usize, TeamMemberView)>,
    i: int,
    wanted: TeamRole,
    diff: MemberDiff,
) -> bool {
    match diff {
        MemberDiff::Noop => !is_repeated(members, i) && has_role(actual, members[i], wanted),
        MemberDiff::ChangeRole((old_role, role)) => {
            &&& role == wanted
            &&& role != old_role
            &&& !is_repeated(members, i)
            &&& has_role(actual, members[i], old_role)
        },
        MemberDiff::Create(role) => {
            &&& role == wanted
            &&& is_repeated(members, i) || !is_listed(actual, members[i])
        },
        MemberDiff::Delete => false,
    }
}

proof fn lemma_wanted_member_diffs(
    sync: SyncGitHubView,
    org: Seq<char>,
    members: Seq<usize>,
    actual: Seq<(usize, TeamMemberView)>,
)
    ensures
        ({
            let diffs = wanted_member_diffs(sync, org, members, actual);
            &&& diffs.len() == members.len()
            &&& forall|i: int|
                0 <= i < members.len() ==> {
                    &&& diffs[i].0 == sync.usernames[#[trigger] members[i]]
                    &&& member_needs(
                        members,
                        actual,
                        i,
                        role_of(sync.org_owners, org, members[i]),
                        diffs[i].1,
                    )
                }
        }),
    decreases members.len(),
{
    if members.len() > 0 {
        let earlier = members.drop_last();
        let n = members.len() - 1;
        let before = wanted_member_diffs(sync, org, earlier, actual);
        let diffs = wanted_member_diffs(sync, org, members, actual);
        lemma_wanted_member_diffs(sync, org, earlier, actual);
        law_the_last_entry_counts(actual, members[n]);
        assert(members[n] == members.last());
        assert(earlier.contains(members[n]) <==> is_repeated(members, n)) by {
            if earlier.contains(members[n]) {
                let j = choose|j: int| 0 <= j < earlier.len() && earlier[j] == members[n];
                assert(members[j] == members[n]);
            }
            if is_repeated(members, n) {
                let j = choose|j: int| 0 <= j < n && #[trigger] members[j] == members[n];
                assert(earlier[j] == members[n]);
            }
        }
        assert forall|i: int| 0 <= i < members.len() implies {
            &&& diffs[i].0 == sync.usernames[#[trigger] members[i]]
            &&& member_needs(
                members,
                actual,
                i,
                role_of(sync.org_owners, org, members[i]),
                diffs[i].1,
            )
        } by {
            if i < n {
                assert(diffs[i] == before[i]);
                assert(earlier[i] == members[i]);
                if is_repeated(members, i) {
                    let j = choose|j: int| 0 <= j < i && #[trigger] members[j] == members[i];
                    assert(earlier[j] == earlier[i]);
                }
                if is_repeated(earlier, i) {
                    let j = choose|j: int| 0 <= j < i && #[trigger] earlier[j] == earlier[i];
                    assert(members[j] == members[i]);
                }
            } else {
                if lookup(actual, members[n]) is Some {
                    assert(last_of(actual, members[n], lookup(actual, members[n])->0));
                    assert(has_role(
                        actual,
                        members[n],
                        lookup(actual, members[n])->0.role,
                    ));
                }
            }
        }
    }
}

/// The changes of the members of a team are what each wanted member needs, in their order and
/// under their usernames, and then the deletions: of exactly the members that are listed without
/// being wanted, each of them once and under the name of its last entry. `ids` tells the ids of
/// the deleted members.
pub proof fn law_member_diffs(
    sync: SyncGitHubView,
    wanted: GitHubTeamView,
    actual: Seq<(usize, TeamMemberView)>,
) -> (ids: Seq<usize>)
    ensures
        ({
            let diffs = member_diffs(sync, wanted, actual);
            let n = wanted.members.len();
            &&& diffs.len() == n + ids.len()
            &&& forall|i: int|
                0 <= i < n ==> {
                    &&& diffs[i].0 == sync.usernames[#[trigger] wanted.members[i]]
                    &&& member_needs(
                        wanted.members,
                        actual,
                        i,
                        role_of(sync.org_owners, wanted.org, wanted.members[i]),
                        diffs[i].1,
                    )
                }
            &&& ids.no_duplicates()
            &&& forall|id: usize| #[trigger]
                ids.contains(id) <==> is_listed(actual, id) && !wanted.members.contains(id)
            &&& forall|k: int|
                0 <= k < ids.len() ==> {
                    &&& diffs[n + k].1 is Delete
                    &&& has_name(actual, #[trigger] ids[k], diffs[n + k].0)
                }
        }),
{
    let left = unclaimed(latest(actual), wanted.members);
    let ids = keys(left);
    let diffs = member_diffs(sync, wanted, actual);
    let first = wanted_member_diffs(sync, wanted.org, wanted.members, actual);
    lemma_wanted_member_diffs(sync, wanted.org, wanted.members, actual);
    lemma_latest(actual);
    lemma_unclaimed(latest(actual), wanted.members);
    assert(forall|i: int| 0 <= i < first.len() ==> diffs[i] == first[i]);
    assert forall|id: usize| #[trigger]
        ids.contains(id) <==> is_listed(actual, id) && !wanted.members.contains(id) by {
        law_the_last_entry_counts(actual, id);
        lemma_lookup(latest(actual), id);
        assert(lookup(latest(actual), id) == lookup(actual, id));
    }
    assert forall|k: int| 0 <= k < ids.len() implies {
        &&& diffs[wanted.members.len() + k].1 is Delete
        &&& has_name(actual, #[trigger] ids[k], diffs[wanted.members.len() + k].0)
    } by {
        let id = ids[k];
        lemma_lookup_entry(left, k);
        law_the_last_entry_counts(actual, id);
        assert(lookup(left, id) == Some(left[k].1));
        assert(ids.contains(id));
        assert(lookup(latest(actual), id) == lookup(actual, id));
        assert(last_of(actual, id, left[k].1));
    }
    ids
}

} // verus!
