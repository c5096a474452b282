//! Laws about the access to a repository, stated over the teams, bots and members that the
//! repository names and over the teams and users that GitHub lists.
use vstd::prelude::*;

use crate::api::{RepoPermission, RepoTeamView, RepoUserView};
use crate::call::RequestView;
use crate::diff::{
    RepoCollaboratorView, RepoPermissionAssignmentDiffView, RepoPermissionDiff,
};
use crate::law_access::{wanted_access, Access};
use crate::law_lists::{last_of, law_map_of_entries, law_the_last_entry_counts};
use crate::law_rules::same_level;
use crate::lists::{
    as_map, keys, latest, lemma_latest, lemma_lookup, lemma_lookup_entry, lemma_unclaimed, lookup,
    unclaimed,
};
use crate::permissions::{
    assignments, bot_accounts, named, permission_diffs, removals, stray_teams, stray_users,
    team_grants, user_grants, CollaboratorKind,
};
use crate::repos::initial_permissions;
use crate::rules::{bot_account, granted};
use crate::sync_run::permission_requests;
use crate::team_data::RepoView;

verus! {

/// The names and levels of the teams of a repository.
pub open spec fn teams_wanted(repo: RepoView) -> Seq<(Seq<char>, RepoPermission)> {
    Seq::new(
        repo.teams.len(),
        |i: int| (repo.teams[i].name, granted(repo.teams[i].permission)),
    )
}

/// The names and levels of the users of a repository: its bots, who may write, and then its
/// members.
pub open spec fn users_wanted(repo: RepoView) -> Seq<(Seq<char>, RepoPermission)> {
    Seq::new(
        repo.bots.len() + repo.members.len(),
        |i: int|
            if i < repo.bots.len() {
                (bot_account(repo.bots[i]), RepoPermission::Write)
            } else {
                let member = repo.members[i - repo.bots.len()];
                (member.name, granted(member.permission))
            },
    )
}

/// The names and levels of some teams that GitHub lists.
pub open spec fn teams_found(teams: Seq<RepoTeamView>) -> Seq<(Seq<char>, RepoPermission)> {
    Seq::new(teams.len(), |i: int| (teams[i].name, teams[i].permission))
}

/// The names and levels of some users that GitHub lists.
pub open spec fn users_found(users: Seq<RepoUserView>) -> Seq<(Seq<char>, RepoPermission)> {
    Seq::new(users.len(), |i: int| (users[i].name, users[i].permission))
}

/// Whether an account is that of a bot of the repository.
pub open spec fn is_bot(repo: RepoView, name: Seq<char>) -> bool {
    exists|i: int| 0 <= i < repo.bots.len() && bot_account(#[trigger] repo.bots[i]) == name
}

/// Whether the repository names a team.
pub open spec fn names_team(repo: RepoView, name: Seq<char>) -> bool {
    exists|i: int| 0 <= i < repo.teams.len() && (#[trigger] repo.teams[i]).name == name
}

/// Whether the repository names a member.
pub open spec fn names_member(repo: RepoView, name: Seq<char>) -> bool {
    exists|i: int| 0 <= i < repo.members.len() && (#[trigger] repo.members[i]).name == name
}

/// Every team of a repository is to have the level of access that goes by the name that the
/// repository gives; so is every member; and every bot may write. Nobody else is granted
/// anything.
pub proof fn law_grants(repo: RepoView)
    ensures
        team_grants(repo).len() == repo.teams.len(),
        forall|i: int|
            0 <= i < repo.teams.len() ==> {
                &&& (#[trigger] team_grants(repo)[i]).0 == repo.teams[i].name
                &&& same_level(team_grants(repo)[i].1, repo.teams[i].permission)
            },
        user_grants(repo).len() == repo.bots.len() + repo.members.len(),
        forall|i: int|
            0 <= i < repo.bots.len() ==> {
                &&& (#[trigger] user_grants(repo)[i]).0 == bot_account(repo.bots[i])
                &&& user_grants(repo)[i].1 is Write
            },
        forall|i: int|
            0 <= i < repo.members.len() ==> {
                &&& user_grants(repo)[repo.bots.len() + i].0 == (#[trigger] repo.members[i]).name
                &&& same_level(
                    user_grants(repo)[repo.bots.len() + i].1,
                    repo.members[i].permission,
                )
            },
        team_grants(repo) == teams_wanted(repo),
        user_grants(repo) == users_wanted(repo),
{
    assert(team_grants(repo) =~= teams_wanted(repo));
    assert(user_grants(repo) =~= users_wanted(repo));
}

/// A new repository gives access to its teams, then to its bots, who may write, and then to its
/// members, each in its order and with the level of access that the repository names.
pub proof fn law_initial_permissions(repo: RepoView)
    ensures
        initial_permissions(repo).len() == repo.teams.len() + repo.bots.len() + repo.members.len(),
        forall|i: int|
            0 <= i < repo.teams.len() ==> {
                &&& initial_permissions(repo)[i].0 == RepoCollaboratorView::Team(
                    (#[trigger] repo.teams[i]).name,
                )
                &&& same_level(initial_permissions(repo)[i].1, repo.teams[i].permission)
            },
        forall|i: int|
            0 <= i < repo.bots.len() ==> {
                let given = initial_permissions(repo)[repo.teams.len() + i];
                &&& given.0 == RepoCollaboratorView::User(bot_account(#[trigger] repo.bots[i]))
                &&& given.1 is Write
            },
        forall|i: int|
            0 <= i < repo.members.len() ==> {
                let given = initial_permissions(repo)[repo.teams.len() + repo.bots.len() + i];
                &&& given.0 == RepoCollaboratorView::User((#[trigger] repo.members[i]).name)
                &&& same_level(given.1, repo.members[i].permission)
            },
{
    law_grants(repo);
}

/// In the wanted access, exactly the bots and the members of the repository are the users: a
/// member with the level that the last entry of the name gives, and a bot that is no member may
/// write. The teams are exactly those of the repository, with the level that the last entry of
/// the name gives, and those named like one of its bots that had access, with what they had.
pub proof fn law_wanted_access(repo: RepoView, before: Access, name: Seq<char>)
    ensures
        ({
            let wanted = wanted_access(repo, before);
            &&& wanted.users.contains_key(name) <==> is_bot(repo, name) || names_member(repo, name)
            &&& is_bot(repo, name) && !names_member(repo, name) ==> wanted.users[name] is Write
            &&& forall|i: int|
                0 <= i < repo.members.len() && (#[trigger] repo.members[i]).name == name && (
                forall|j: int|
                    i < j < repo.members.len() ==> (#[trigger] repo.members[j]).name != name)
                    ==> same_level(wanted.users[name], repo.members[i].permission)
            &&& wanted.teams.contains_key(name) <==> names_team(repo, name) || (is_bot(repo, name)
                && before.teams.contains_key(name))
            &&& wanted.teams.contains_key(name) && !names_team(repo, name) ==> wanted.teams[name]
                == before.teams[name]
            &&& forall|i: int|
                0 <= i < repo.teams.len() && (#[trigger] repo.teams[i]).name == name && (forall|
                    j: int,
                |
                    i < j < repo.teams.len() ==> (#[trigger] repo.teams[j]).name != name)
                    ==> same_level(wanted.teams[name], repo.teams[i].permission)
        }),
{
    let wanted = wanted_access(repo, before);
    let users = users_wanted(repo);
    let teams = teams_wanted(repo);
    let bots = repo.bots.len();
    law_grants(repo);
    law_map_of_entries(users, name);
    law_map_of_entries(teams, name);
    law_the_last_entry_counts(users, name);
    law_the_last_entry_counts(teams, name);
    if is_bot(repo, name) {
        let i = choose|i: int|
            0 <= i < repo.bots.len() && bot_account(#[trigger] repo.bots[i]) == name;
        assert(users[i].0 == name);
        assert(bot_accounts(repo)[i] == name);
        assert(bot_accounts(repo).to_set().contains(name));
    }
    if names_member(repo, name) {
        let i = choose|i: int|
            0 <= i < repo.members.len() && (#[trigger] repo.members[i]).name == name;
        assert(users[bots + i].0 == name);
    }
    if names_team(repo, name) {
        let i = choose|i: int| 0 <= i < repo.teams.len() && (#[trigger] repo.teams[i]).name == name;
        assert(teams[i].0 == name);
    }
    if wanted.users.contains_key(name) {
        let i = choose|i: int|
            0 <= i < users.len() && (#[trigger] users[i]).0 == name && users[i].1
                == wanted.users[name] && (forall|j: int|
                i < j < users.len() ==> (#[trigger] users[j]).0 != name);
        if i < bots {
            assert(bot_account(repo.bots[i]) == name);
        } else {
            assert(repo.members[i - bots].name == name);
        }
    }
    assert forall|i: int|
        0 <= i < repo.members.len() && (#[trigger] repo.members[i]).name == name && (forall|j: int|
            i < j < repo.members.len() ==> (#[trigger] repo.members[j]).name
                != name) implies same_level(wanted.users[name], repo.members[i].permission) by {
        assert(users[bots + i].0 == name);
        assert forall|j: int| bots + i < j < users.len() implies (#[trigger] users[j]).0
            != name by {
            assert(repo.members[j - bots].name != name);
        }
        assert(last_of(users, name, users[bots + i].1));
    }
    if as_map(teams).contains_key(name) {
        let i = choose|i: int| 0 <= i < teams.len() && (#[trigger] teams[i]).0 == name;
        assert(repo.teams[i].name == name);
    }
    if bot_accounts(repo).to_set().contains(name) {
        assert(bot_accounts(repo).contains(name));
        let i = choose|i: int|
            0 <= i < bot_accounts(repo).len() && bot_accounts(repo)[i] == name;
        assert(bot_account(repo.bots[i]) == name);
    }
    assert forall|i: int|
        0 <= i < repo.teams.len() && (#[trigger] repo.teams[i]).name == name && (forall|j: int|
            i < j < repo.teams.len() ==> (#[trigger] repo.teams[j]).name
                != name) implies same_level(wanted.teams[name], repo.teams[i].permission) by {
        assert(teams[i].0 == name);
        assert forall|j: int| i < j < teams.len() implies (#[trigger] teams[j]).0 != name by {
            assert(repo.teams[j].name != name);
        }
        assert(last_of(teams, name, teams[i].1));
    }
}

/// Whether an earlier entry has the same name as one.
pub open spec fn is_repeated(wanted: Seq<(Seq<char>, RepoPermission)>, i: int) -> bool {
    exists|j: int| 0 <= j < i && (#[trigger] wanted[j]).0 == wanted[i].0
}

/// Whether no entry has a name.
pub open spec fn is_unlisted(
    found: Seq<(Seq<char>, RepoPermission)>,
    name: Seq<char>,
) -> bool {
    forall|k: int| 0 <= k < found.len() ==> (#[trigger] found[k]).0 != name
}

/// Whether a diff is what a wanted entry needs, when `found` is listed: the access is given if
/// the name is not listed, or was compared before; it goes from the listed level to the wanted
/// one if they differ.
pub open spec fn is_needed(
    wanted: Seq<(Seq<char>, RepoPermission)>,
    found: Seq<(Seq<char>, RepoPermission)>,
    i: int,
    diff: RepoPermissionDiff,
) -> bool {
    match diff {
        RepoPermissionDiff::Create(permission) => {
            &&& permission == wanted[i].1
            &&& is_repeated(wanted, i) || is_unlisted(found, wanted[i].0)
        },
        RepoPermissionDiff::Update(old_permission, permission) => {
            &&& permission == wanted[i].1
            &&& permission != old_permission
            &&& !is_repeated(wanted, i)
            &&& last_of(found, wanted[i].0, old_permission)
        },
        RepoPermissionDiff::Delete(_) => false,
    }
}

/// Whether a wanted entry needs nothing: its name is listed with the wanted level, and was not
/// compared before.
pub open spec fn is_settled(
    wanted: Seq<(Seq<char>, RepoPermission)>,
    found: Seq<(Seq<char>, RepoPermission)>,
    i: int,
) -> bool {
    !is_repeated(wanted, i) && last_of(found, wanted[i].0, wanted[i].1)
}

/// Whether some places are in their order, and all of them before an end.
pub open spec fn in_order(places: Seq<int>, end: int) -> bool {
    &&& forall|k: int| 0 <= k < places.len() ==> 0 <= #[trigger] places[k] < end
    &&& forall|k: int, l: int| 0 <= k < l < places.len() ==> #[trigger] places[k]
        < #[trigger] places[l]
}

/// Whether the diffs from one place on are what the wanted entries at some places need, and all
/// other wanted entries need nothing.
pub open spec fn are_needed(
    kind: CollaboratorKind,
    wanted: Seq<(Seq<char>, RepoPermission)>,
    found: Seq<(Seq<char>, RepoPermission)>,
    diffs: Seq<RepoPermissionAssignmentDiffView>,
    first: int,
    places: Seq<int>,
) -> bool {
    &&& in_order(places, wanted.len() as int)
    &&& first + places.len() <= diffs.len()
    &&& forall|k: int|
        0 <= k < places.len() ==> {
            &&& diffs[first + k].collaborator == match kind {
                CollaboratorKind::Team => RepoCollaboratorView::Team(
                    wanted[#[trigger] places[k]].0,
                ),
                CollaboratorKind::User => RepoCollaboratorView::User(wanted[places[k]].0),
            }
            &&& is_needed(wanted, found, places[k], diffs[first + k].diff)
        }
    &&& forall|i: int|
        0 <= i < wanted.len() && !places.contains(i) ==> #[trigger] is_settled(wanted, found, i)
}

proof fn lemma_assignments(
    kind: CollaboratorKind,
    wanted: Seq<(Seq<char>, RepoPermission)>,
    found: Seq<(Seq<char>, RepoPermission)>,
) -> (places: Seq<int>)
    ensures
        places.len() == assignments(kind, wanted, latest(found)).len(),
        are_needed(kind, wanted, found, assignments(kind, wanted, latest(found)), 0, places),
    decreases wanted.len(),
{
    if wanted.len() == 0 {
        Seq::empty()
    } else {
        let earlier = wanted.drop_last();
        let n = wanted.len() - 1;
        let name = wanted.last().0;
        let before = assignments(kind, earlier, latest(found));
        let diffs = assignments(kind, wanted, latest(found));
        let rest = lemma_assignments(kind, earlier, found);
        lemma_latest(found);
        law_the_last_entry_counts(found, name);
        assert(lookup(latest(found), name) == lookup(found, name));
        assert(wanted[n] == wanted.last());
        assert(keys(earlier).contains(name) <==> is_repeated(wanted, n)) by {
            if keys(earlier).contains(name) {
                let j = choose|j: int| 0 <= j < keys(earlier).len() && keys(earlier)[j] == name;
                assert(wanted[j].0 == name);
            }
            if is_repeated(wanted, n) {
                let j = choose|j: int| 0 <= j < n && (#[trigger] wanted[j]).0 == wanted[n].0;
                assert(keys(earlier)[j] == name);
            }
        }
        assert forall|i: int| 0 <= i < n implies is_repeated(earlier, i) == #[trigger] is_repeated(
            wanted,
            i,
        ) by {
            if is_repeated(wanted, i) {
                let j = choose|j: int| 0 <= j < i && (#[trigger] wanted[j]).0 == wanted[i].0;
                assert(earlier[j].0 == earlier[i].0);
            }
            if is_repeated(earlier, i) {
                let j = choose|j: int| 0 <= j < i && (#[trigger] earlier[j]).0 == earlier[i].0;
                assert(wanted[j].0 == wanted[i].0);
            }
        }
        assert forall|i: int| 0 <= i < n && is_settled(earlier, found, i) implies is_settled(
            wanted,
            found,
            i,
        ) by {
            assert(is_repeated(earlier, i) == is_repeated(wanted, i));
            assert(earlier[i] == wanted[i]);
        }
        assert forall|k: int| 0 <= k < rest.len() implies is_needed(
            wanted,
            found,
            #[trigger] rest[k],
            diffs[k].diff,
        ) && diffs[k].collaborator == named(kind, wanted[rest[k]].0) by {
            assert(is_repeated(earlier, rest[k]) == is_repeated(wanted, rest[k]));
            assert(earlier[rest[k]] == wanted[rest[k]]);
            assert(diffs[k] == before[k]);
        }
        if diffs.len() == before.len() {
            assert forall|i: int| 0 <= i < wanted.len() && !rest.contains(i) implies #[trigger]
            is_settled(wanted, found, i) by {
                if i < n {
                    assert(is_settled(earlier, found, i));
                } else {
                    assert(last_of(found, name, wanted[n].1));
                }
            }
            rest
        } else {
            let places = rest.push(n);
            assert(diffs.len() == before.len() + 1);
            assert forall|i: int| 0 <= i < wanted.len() && !places.contains(i) implies #[trigger]
            is_settled(wanted, found, i) by {
                assert(places[rest.len() as int] == n);
                assert(i != n);
                assert(!rest.contains(i)) by {
                    if rest.contains(i) {
                        let k = choose|k: int| 0 <= k < rest.len() && rest[k] == i;
                        assert(places[k] == i);
                    }
                }
                assert(is_settled(earlier, found, i));
            }
            assert(lookup(found, name) matches Some(permission) ==> last_of(
                found,
                name,
                permission,
            ));
            assert(is_needed(wanted, found, n, diffs[before.len() as int].diff));
            places
        }
    }
}

/// What is left of the latest entries after some names are claimed.
proof fn lemma_left(
    found: Seq<(Seq<char>, RepoPermission)>,
    claimed: Seq<Seq<char>>,
    name: Seq<char>,
    permission: RepoPermission,
)
    ensures
        unclaimed(latest(found), claimed).contains((name, permission)) <==> last_of(
            found,
            name,
            permission,
        ) && !claimed.contains(name),
        unclaimed(latest(found), claimed).no_duplicates(),
{
    let left = unclaimed(latest(found), claimed);
    lemma_latest(found);
    lemma_unclaimed(latest(found), claimed);
    law_the_last_entry_counts(found, name);
    assert(lookup(left, name) == if claimed.contains(name) {
        None
    } else {
        lookup(latest(found), name)
    });
    assert(lookup(latest(found), name) == lookup(found, name));
    lemma_lookup(left, name);
    if left.contains((name, permission)) {
        let k = choose|k: int| 0 <= k < left.len() && left[k] == (name, permission);
        lemma_lookup_entry(left, k);
    }
    assert forall|a: int, b: int| 0 <= a < left.len() && 0 <= b < left.len() && a != b implies left[
        a
    ] != left[b] by {
        assert(keys(left)[a] != keys(left)[b]);
    }
}

/// The teams that lose their access are exactly those that are listed without being named by the
/// repository, unless they are named like one of its bots; the users exactly those that are
/// listed and are neither a bot nor a member of it. Each of them is told once, with the level that
/// its last entry has.
pub proof fn law_strays(
    repo: RepoView,
    teams: Seq<RepoTeamView>,
    users: Seq<RepoUserView>,
    name: Seq<char>,
    permission: RepoPermission,
)
    ensures
        stray_teams(repo, teams).no_duplicates(),
        stray_teams(repo, teams).contains((name, permission)) <==> last_of(
            teams_found(teams),
            name,
            permission,
        ) && !names_team(repo, name) && !is_bot(repo, name),
        stray_users(repo, users).no_duplicates(),
        stray_users(repo, users).contains((name, permission)) <==> last_of(
            users_found(users),
            name,
            permission,
        ) && !names_member(repo, name) && !is_bot(repo, name),
{
    let claimed_teams = keys(team_grants(repo)) + bot_accounts(repo);
    let claimed_users = keys(user_grants(repo));
    law_grants(repo);
    assert(teams.map_values(|team: RepoTeamView| (team.name, team.permission)) =~= teams_found(
        teams,
    ));
    assert(users.map_values(|user: RepoUserView| (user.name, user.permission)) =~= users_found(
        users,
    ));
    lemma_left(teams_found(teams), claimed_teams, name, permission);
    lemma_left(users_found(users), claimed_users, name, permission);
    if claimed_teams.contains(name) {
        let i = choose|i: int| 0 <= i < claimed_teams.len() && claimed_teams[i] == name;
        if i < repo.teams.len() {
            assert(repo.teams[i].name == name);
        } else {
            assert(bot_account(repo.bots[i - repo.teams.len()]) == name);
        }
    }
    if names_team(repo, name) {
        let i = choose|i: int| 0 <= i < repo.teams.len() && (#[trigger] repo.teams[i]).name == name;
        assert(claimed_teams[i] == name);
    }
    if is_bot(repo, name) {
        let i = choose|i: int|
            0 <= i < repo.bots.len() && bot_account(#[trigger] repo.bots[i]) == name;
        assert(claimed_teams[repo.teams.len() + i] == name);
        assert(claimed_users[i] == name);
    }
    if claimed_users.contains(name) {
        let i = choose|i: int| 0 <= i < claimed_users.len() && claimed_users[i] == name;
        if i < repo.bots.len() {
            assert(bot_account(repo.bots[i]) == name);
        } else {
            assert(repo.members[i - repo.bots.len()].name == name);
        }
    }
    if names_member(repo, name) {
        let i = choose|i: int|
            0 <= i < repo.members.len() && (#[trigger] repo.members[i]).name == name;
        assert(claimed_users[repo.bots.len() + i] == name);
    }
}

/// The changes of the access to a repository are what its teams need, in their order, then what
/// its bots and members need, in their order, and then what is taken away, of teams and of users.
/// `places.0` and `places.1` tell which of the teams, and which of the bots and members, need
/// something; the others have exactly what is wanted.
pub proof fn law_permission_diffs(
    repo: RepoView,
    teams: Seq<RepoTeamView>,
    users: Seq<RepoUserView>,
) -> (places: (Seq<int>, Seq<int>))
    ensures
        ({
            let diffs = permission_diffs(repo, teams, users);
            let given = places.0.len() + places.1.len();
            let teams_left = given + stray_teams(repo, teams).len();
            &&& are_needed(
                CollaboratorKind::Team,
                teams_wanted(repo),
                teams_found(teams),
                diffs,
                0,
                places.0,
            )
            &&& are_needed(
                CollaboratorKind::User,
                users_wanted(repo),
                users_found(users),
                diffs,
                places.0.len() as int,
                places.1,
            )
            &&& diffs.len() == teams_left + stray_users(repo, users).len()
            &&& forall|k: int|
                given <= k < teams_left ==> #[trigger] diffs[k] == (
                RepoPermissionAssignmentDiffView {
                    collaborator: RepoCollaboratorView::Team(
                        stray_teams(repo, teams)[k - given].0,
                    ),
                    diff: RepoPermissionDiff::Delete(stray_teams(repo, teams)[k - given].1),
                })
            &&& forall|k: int|
                teams_left <= k < diffs.len() ==> #[trigger] diffs[k] == (
                RepoPermissionAssignmentDiffView {
                    collaborator: RepoCollaboratorView::User(
                        stray_users(repo, users)[k - teams_left].0,
                    ),
                    diff: RepoPermissionDiff::Delete(stray_users(repo, users)[k - teams_left].1),
                })
        }),
{
    law_grants(repo);
    assert(teams.map_values(|team: RepoTeamView| (team.name, team.permission)) =~= teams_found(
        teams,
    ));
    assert(users.map_values(|user: RepoUserView| (user.name, user.permission)) =~= users_found(
        users,
    ));
    let for_teams = lemma_assignments(
        CollaboratorKind::Team,
        teams_wanted(repo),
        teams_found(teams),
    );
    let for_users = lemma_assignments(
        CollaboratorKind::User,
        users_wanted(repo),
        users_found(users),
    );
    let first = assignments(
        CollaboratorKind::Team,
        teams_wanted(repo),
        latest(teams_found(teams)),
    );
    let second = assignments(
        CollaboratorKind::User,
        users_wanted(repo),
        latest(users_found(users)),
    );
    let third = removals(CollaboratorKind::Team, stray_teams(repo, teams));
    let fourth = removals(CollaboratorKind::User, stray_users(repo, users));
    let diffs = permission_diffs(repo, teams, users);
    assert(diffs == first + second + third + fourth);
    assert(forall|k: int| 0 <= k < first.len() ==> diffs[k] == first[k]);
    assert forall|k: int| 0 <= k < second.len() implies diffs[for_teams.len() + k] == second[k] by {
    }
    (for_teams, for_users)
}

/// A synchronization gives all wanted access anew, to the teams, the bots and the members, each in
/// its order and with the level of access that the repository names, and then takes away what is
/// left; every call is about the repository itself.
pub proof fn law_permission_requests(
    repo: RepoView,
    teams: Seq<RepoTeamView>,
    users: Seq<RepoUserView>,
)
    ensures
        ({
            let requests = permission_requests(repo, teams, users);
            let bots = repo.teams.len();
            let members = bots + repo.bots.len();
            let teams_left = members + repo.members.len();
            let users_left = teams_left + stray_teams(repo, teams).len();
            &&& requests.len() == users_left + stray_users(repo, users).len()
            &&& forall|i: int|
                0 <= i < repo.teams.len() ==> {
                    &&& requests[i] matches RequestView::UpdateTeamRepoPermissions {
                        org,
                        repo: name,
                        team,
                        permission,
                    }
                    &&& org == repo.org && name == repo.name
                    &&& team == (#[trigger] repo.teams[i]).name
                    &&& same_level(permission, repo.teams[i].permission)
                }
            &&& forall|i: int|
                0 <= i < repo.bots.len() ==> requests[bots + i] == (
                RequestView::UpdateUserRepoPermissions {
                    org: repo.org,
                    repo: repo.name,
                    user: bot_account(#[trigger] repo.bots[i]),
                    permission: RepoPermission::Write,
                })
            &&& forall|i: int|
                0 <= i < repo.members.len() ==> {
                    &&& requests[members + i] matches RequestView::UpdateUserRepoPermissions {
                        org,
                        repo: name,
                        user,
                        permission,
                    }
                    &&& org == repo.org && name == repo.name
                    &&& user == (#[trigger] repo.members[i]).name
                    &&& same_level(permission, repo.members[i].permission)
                }
            &&& forall|i: int|
                0 <= i < stray_teams(repo, teams).len() ==> requests[teams_left + i] == (
                RequestView::RemoveTeamFromRepo {
                    org: repo.org,
                    repo: repo.name,
                    team: (#[trigger] stray_teams(repo, teams)[i]).0,
                })
            &&& forall|i: int|
                0 <= i < stray_users(repo, users).len() ==> requests[users_left + i] == (
                RequestView::RemoveCollaboratorFromRepo {
                    org: repo.org,
                    repo: repo.name,
                    user: (#[trigger] stray_users(repo, users)[i]).0,
                })
        }),
{
    law_grants(repo);
    let requests = permission_requests(repo, teams, users);
    let bots = repo.teams.len();
    let members = bots + repo.bots.len();
    assert forall|i: int| 0 <= i < repo.members.len() implies requests[members + i] == (
    RequestView::UpdateUserRepoPermissions {
        org: repo.org,
        repo: repo.name,
        user: (#[trigger] repo.members[i]).name,
        permission: granted(repo.members[i].permission),
    }) by {
        assert(users_wanted(repo)[repo.bots.len() + i].0 == repo.members[i].name);
    }
    assert forall|i: int| 0 <= i < repo.bots.len() implies requests[bots + i] == (
    RequestView::UpdateUserRepoPermissions {
        org: repo.org,
        repo: repo.name,
        user: bot_account(#[trigger] repo.bots[i]),
        permission: RepoPermission::Write,
    }) by {
        assert(users_wanted(repo)[i].0 == bot_account(repo.bots[i]));
    }
}

} // verus!
