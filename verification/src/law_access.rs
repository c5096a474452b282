//! Laws about the access to a repository.
use vstd::prelude::*;

use crate::api::{RepoPermission, RepoTeamView, RepoUserView};
use crate::call::RequestView;
use crate::diff::RepoPermissionAssignmentDiffView;
use crate::lists::{
    as_map, keys, lemma_lookup, lemma_lookup_entry, lemma_unclaimed, lookup, unclaimed,
};
use crate::permissions::{
    assignment, assignments, bot_accounts, listed_teams, listed_users, permission_diffs, removals,
    stray_teams, stray_users, team_grants, user_grants, CollaboratorKind,
};
use crate::repos::repo_diff;
use crate::sync_run::{grant_team, grant_user, permission_requests, revoke_team, revoke_user};
use crate::team_data::RepoView;

verus! {

/// Who has access to a repository.
pub struct Access {
    pub teams: Map<Seq<char>, RepoPermission>,
    pub users: Map<Seq<char>, RepoPermission>,
}

/// What a call about a repository does to the access to it.
pub open spec fn perform(access: Access, request: RequestView) -> Access {
    match request {
        RequestView::UpdateTeamRepoPermissions { team, permission, .. } => Access {
            teams: access.teams.insert(team, permission),
            ..access
        },
        RequestView::UpdateUserRepoPermissions { user, permission, .. } => Access {
            users: access.users.insert(user, permission),
            ..access
        },
        RequestView::RemoveTeamFromRepo { team, .. } => Access {
            teams: access.teams.remove(team),
            ..access
        },
        RequestView::RemoveCollaboratorFromRepo { user, .. } => Access {
            users: access.users.remove(user),
            ..access
        },
        _ => access,
    }
}

/// What some calls about a repository do to the access to it, one after the other.
pub open spec fn perform_all(access: Access, requests: Seq<RequestView>) -> Access
    decreases requests.len(),
{
    if requests.len() == 0 {
        access
    } else {
        perform(perform_all(access, requests.drop_last()), requests.last())
    }
}

/// The access that the listed teams and users have.
pub open spec fn listed_access(teams: Seq<RepoTeamView>, users: Seq<RepoUserView>) -> Access {
    Access { teams: as_map(listed_teams(teams)), users: as_map(listed_users(users)) }
}

/// A map in which the given entries are set.
pub open spec fn overlay(
    before: Map<Seq<char>, RepoPermission>,
    grants: Seq<(Seq<char>, RepoPermission)>,
) -> Map<Seq<char>, RepoPermission> {
    before.union_prefer_right(as_map(grants))
}

/// The access that is wanted, where there was some access before: exactly the wanted teams and
/// users have access, and the teams that are named like a bot of the repository keep theirs.
pub open spec fn wanted_access(repo: RepoView, before: Access) -> Access {
    Access {
        teams: overlay(
            before.teams.restrict(bot_accounts(repo).to_set()),
            team_grants(repo),
        ),
        users: as_map(user_grants(repo)),
    }
}

/// The calls that carry out some changes of the access.
pub open spec fn access_requests(
    diffs: Seq<RepoPermissionAssignmentDiffView>,
    org: Seq<char>,
    name: Seq<char>,
) -> Seq<RequestView> {
    diffs.map_values(|diff: RepoPermissionAssignmentDiffView| diff.request(org, name))
}

/// Carrying out calls in two parts is carrying them out in one go.
pub proof fn lemma_perform_append(access: Access, a: Seq<RequestView>, b: Seq<RequestView>)
    ensures
        perform_all(access, a + b) == perform_all(perform_all(access, a), b),
    decreases b.len(),
{
    if b.len() == 0 {
        assert(a + b =~= a);
    } else {
        assert((a + b).drop_last() =~= a + b.drop_last());
        lemma_perform_append(access, a, b.drop_last());
    }
}

proof fn lemma_overlay_push(
    before: Map<Seq<char>, RepoPermission>,
    grants: Seq<(Seq<char>, RepoPermission)>,
)
    requires
        grants.len() > 0,
    ensures
        overlay(before, grants) == overlay(before, grants.drop_last()).insert(
            grants.last().0,
            grants.last().1,
        ),
{
    let earlier = grants.drop_last();
    let last = grants.last();
    assert(keys(grants) =~= keys(earlier).push(last.0));
    assert forall|name: Seq<char>|
        keys(grants).contains(name) <==> keys(earlier).contains(name) || name == last.0 by {
        lemma_lookup(grants, name);
        lemma_lookup(earlier, name);
    }
    assert(overlay(before, grants) =~= overlay(before, earlier).insert(last.0, last.1));
}

proof fn lemma_overlay_empty(
    before: Map<Seq<char>, RepoPermission>,
    grants: Seq<(Seq<char>, RepoPermission)>,
)
    requires
        grants.len() == 0,
    ensures
        overlay(before, grants) == before,
{
    assert(overlay(before, grants) =~= before);
}

/// The map of one kind of collaborators.
spec fn side(access: Access, kind: CollaboratorKind) -> Map<Seq<char>, RepoPermission> {
    match kind {
        CollaboratorKind::Team => access.teams,
        CollaboratorKind::User => access.users,
    }
}

spec fn other_side(access: Access, kind: CollaboratorKind) -> Map<Seq<char>, RepoPermission> {
    match kind {
        CollaboratorKind::Team => access.users,
        CollaboratorKind::User => access.teams,
    }
}

/// Carrying out the changes for the wanted collaborators gives each its wanted access.
proof fn lemma_assignments(
    access: Access,
    kind: CollaboratorKind,
    wanted: Seq<(Seq<char>, RepoPermission)>,
    actual: Seq<(Seq<char>, RepoPermission)>,
    org: Seq<char>,
    name: Seq<char>,
)
    requires
        side(access, kind) == as_map(actual),
    ensures
        side(
            perform_all(access, access_requests(assignments(kind, wanted, actual), org, name)),
            kind,
        ) == overlay(as_map(actual), wanted),
        other_side(
            perform_all(access, access_requests(assignments(kind, wanted, actual), org, name)),
            kind,
        ) == other_side(access, kind),
    decreases wanted.len(),
{
    if wanted.len() == 0 {
        lemma_overlay_empty(as_map(actual), wanted);
        assert(access_requests(assignments(kind, wanted, actual), org, name) =~= Seq::empty());
    } else {
        let earlier = wanted.drop_last();
        let who = wanted.last().0;
        let permission = wanted.last().1;
        lemma_assignments(access, kind, earlier, actual, org, name);
        lemma_overlay_push(as_map(actual), wanted);
        lemma_lookup(earlier, who);
        lemma_lookup(actual, who);
        let found = if keys(earlier).contains(who) {
            None
        } else {
            lookup(actual, who)
        };
        let first = assignments(kind, earlier, actual);
        let last = assignment(kind, who, permission, found);
        let first_requests = access_requests(first, org, name);
        let last_requests = access_requests(last, org, name);
        assert(access_requests(assignments(kind, wanted, actual), org, name) =~= first_requests
            + last_requests);
        lemma_perform_append(access, first_requests, last_requests);
        let middle = perform_all(access, first_requests);
        if last.len() == 0 {
            assert(last_requests =~= Seq::empty());
            assert(overlay(as_map(actual), earlier).insert(who, permission) =~= overlay(
                as_map(actual),
                earlier,
            ));
        } else {
            assert(last_requests =~= seq![last[0].request(org, name)]);
            assert(last_requests.drop_last() =~= Seq::empty());
            reveal_with_fuel(perform_all, 2);
            assert(perform_all(middle, last_requests) == perform(
                middle,
                last[0].request(org, name),
            ));
        }
    }
}

/// Carrying out removals takes away the access of exactly those that are named.
proof fn lemma_removals(
    access: Access,
    kind: CollaboratorKind,
    left: Seq<(Seq<char>, RepoPermission)>,
    org: Seq<char>,
    name: Seq<char>,
)
    ensures
        side(perform_all(access, access_requests(removals(kind, left), org, name)), kind) == side(
            access,
            kind,
        ).remove_keys(keys(left).to_set()),
        other_side(perform_all(access, access_requests(removals(kind, left), org, name)), kind)
            == other_side(access, kind),
    decreases left.len(),
{
    let requests = access_requests(removals(kind, left), org, name);
    if left.len() == 0 {
        assert(side(access, kind).remove_keys(keys(left).to_set()) =~= side(access, kind));
    } else {
        let earlier = left.drop_last();
        lemma_removals(access, kind, earlier, org, name);
        assert(requests.drop_last() =~= access_requests(removals(kind, earlier), org, name));
        assert(keys(left) =~= keys(earlier).push(left.last().0));
        assert(side(access, kind).remove_keys(keys(earlier).to_set()).remove(left.last().0)
            =~= side(access, kind).remove_keys(keys(left).to_set())) by {
            assert forall|who: Seq<char>|
                keys(left).to_set().contains(who) <==> keys(earlier).to_set().contains(who) || who
                    == left.last().0 by {
                lemma_lookup(left, who);
                lemma_lookup(earlier, who);
            }
        }
    }
}

/// Once the wanted collaborators have their access and the strays have none, exactly the
/// wanted access is left.
proof fn lemma_settled(
    actual: Seq<(Seq<char>, RepoPermission)>,
    wanted: Seq<(Seq<char>, RepoPermission)>,
    spared: Seq<Seq<char>>,
)
    ensures
        overlay(as_map(actual), wanted).remove_keys(
            keys(unclaimed(actual, keys(wanted) + spared)).to_set(),
        ) == overlay(as_map(actual).restrict(spared.to_set()), wanted),
{
    let claimed = keys(wanted) + spared;
    let left = unclaimed(actual, claimed);
    lemma_unclaimed(actual, claimed);
    assert forall|who: Seq<char>| #[trigger]
        claimed.contains(who) <==> keys(wanted).contains(who) || spared.contains(who) by {
        if keys(wanted).contains(who) {
            let i = choose|i: int| 0 <= i < keys(wanted).len() && keys(wanted)[i] == who;
            assert(claimed[i] == who);
        }
        if spared.contains(who) {
            let i = choose|i: int| 0 <= i < spared.len() && spared[i] == who;
            assert(claimed[i + keys(wanted).len()] == who);
        }
    }
    let after = overlay(as_map(actual), wanted).remove_keys(keys(left).to_set());
    let settled = overlay(as_map(actual).restrict(spared.to_set()), wanted);
    assert forall|who: Seq<char>| after.dom().contains(who) <==> settled.dom().contains(who) by {
        assert(keys(left).contains(who) <==> keys(actual).contains(who) && !claimed.contains(who));
    }
    assert(after =~= settled);
}

proof fn lemma_no_one_spared(
    actual: Map<Seq<char>, RepoPermission>,
    wanted: Seq<(Seq<char>, RepoPermission)>,
)
    ensures
        overlay(actual.restrict(Seq::<Seq<char>>::empty().to_set()), wanted) == as_map(wanted),
{
    assert(overlay(actual.restrict(Seq::<Seq<char>>::empty().to_set()), wanted) =~= as_map(wanted));
}

/// Carrying out the permission diffs of a repository brings the access to it from what was
/// listed to what is wanted.
pub proof fn law_permission_diffs_converge(
    repo: RepoView,
    teams: Seq<RepoTeamView>,
    users: Seq<RepoUserView>,
    org: Seq<char>,
    name: Seq<char>,
)
    ensures
        perform_all(
            listed_access(teams, users),
            access_requests(permission_diffs(repo, teams, users), org, name),
        ) == wanted_access(repo, listed_access(teams, users)),
{
    let start = listed_access(teams, users);
    let there_teams = listed_teams(teams);
    let there_users = listed_users(users);
    let bots = bot_accounts(repo);
    let a = assignments(CollaboratorKind::Team, team_grants(repo), there_teams);
    let b = assignments(CollaboratorKind::User, user_grants(repo), there_users);
    let c = removals(CollaboratorKind::Team, stray_teams(repo, teams));
    let d = removals(CollaboratorKind::User, stray_users(repo, users));
    let ra = access_requests(a, org, name);
    let rb = access_requests(b, org, name);
    let rc = access_requests(c, org, name);
    let rd = access_requests(d, org, name);
    assert(access_requests(permission_diffs(repo, teams, users), org, name) =~= ra + rb + rc + rd);
    lemma_perform_append(start, ra + rb + rc, rd);
    lemma_perform_append(start, ra + rb, rc);
    lemma_perform_append(start, ra, rb);
    let after_a = perform_all(start, ra);
    let after_b = perform_all(after_a, rb);
    let after_c = perform_all(after_b, rc);
    lemma_assignments(start, CollaboratorKind::Team, team_grants(repo), there_teams, org, name);
    lemma_assignments(after_a, CollaboratorKind::User, user_grants(repo), there_users, org, name);
    lemma_removals(after_b, CollaboratorKind::Team, stray_teams(repo, teams), org, name);
    lemma_removals(after_c, CollaboratorKind::User, stray_users(repo, users), org, name);
    lemma_settled(there_teams, team_grants(repo), bots);
    lemma_settled(there_users, user_grants(repo), Seq::empty());
    assert(keys(user_grants(repo)) + Seq::empty() =~= keys(user_grants(repo)));
    lemma_no_one_spared(as_map(there_users), user_grants(repo));
}

proof fn lemma_grants(
    access: Access,
    repo: RepoView,
    kind: CollaboratorKind,
    grants: Seq<(Seq<char>, RepoPermission)>,
    requests: Seq<RequestView>,
)
    requires
        requests == match kind {
            CollaboratorKind::Team => grants.map_values(
                |grant: (Seq<char>, RepoPermission)| grant_team(repo, grant),
            ),
            CollaboratorKind::User => grants.map_values(
                |grant: (Seq<char>, RepoPermission)| grant_user(repo, grant),
            ),
        },
    ensures
        side(perform_all(access, requests), kind) == overlay(side(access, kind), grants),
        other_side(perform_all(access, requests), kind) == other_side(access, kind),
    decreases grants.len(),
{
    if grants.len() == 0 {
        lemma_overlay_empty(side(access, kind), grants);
    } else {
        let earlier = grants.drop_last();
        let earlier_requests = match kind {
            CollaboratorKind::Team => earlier.map_values(
                |grant: (Seq<char>, RepoPermission)| grant_team(repo, grant),
            ),
            CollaboratorKind::User => earlier.map_values(
                |grant: (Seq<char>, RepoPermission)| grant_user(repo, grant),
            ),
        };
        assert(requests.drop_last() =~= earlier_requests);
        lemma_grants(access, repo, kind, earlier, earlier_requests);
        lemma_overlay_push(side(access, kind), grants);
    }
}

proof fn lemma_revocations(
    access: Access,
    repo: RepoView,
    kind: CollaboratorKind,
    left: Seq<(Seq<char>, RepoPermission)>,
    requests: Seq<RequestView>,
)
    requires
        requests == match kind {
            CollaboratorKind::Team => left.map_values(
                |grant: (Seq<char>, RepoPermission)| revoke_team(repo, grant),
            ),
            CollaboratorKind::User => left.map_values(
                |grant: (Seq<char>, RepoPermission)| revoke_user(repo, grant),
            ),
        },
    ensures
        perform_all(access, requests) == perform_all(
            access,
            access_requests(removals(kind, left), repo.org, repo.name),
        ),
{
    assert(requests =~= access_requests(removals(kind, left), repo.org, repo.name));
}

/// The calls of a synchronization bring the access to a repository to the same state as the
/// permission diffs do.
pub proof fn law_synchronized_access(
    repo: RepoView,
    teams: Seq<RepoTeamView>,
    users: Seq<RepoUserView>,
)
    ensures
        perform_all(listed_access(teams, users), permission_requests(repo, teams, users))
            == wanted_access(repo, listed_access(teams, users)),
{
    let start = listed_access(teams, users);
    let there_teams = listed_teams(teams);
    let there_users = listed_users(users);
    let ra = team_grants(repo).map_values(
        |grant: (Seq<char>, RepoPermission)| grant_team(repo, grant),
    );
    let rb = user_grants(repo).map_values(
        |grant: (Seq<char>, RepoPermission)| grant_user(repo, grant),
    );
    let rc = stray_teams(repo, teams).map_values(
        |grant: (Seq<char>, RepoPermission)| revoke_team(repo, grant),
    );
    let rd = stray_users(repo, users).map_values(
        |grant: (Seq<char>, RepoPermission)| revoke_user(repo, grant),
    );
    lemma_perform_append(start, ra + rb + rc, rd);
    lemma_perform_append(start, ra + rb, rc);
    lemma_perform_append(start, ra, rb);
    let after_a = perform_all(start, ra);
    let after_b = perform_all(after_a, rb);
    let after_c = perform_all(after_b, rc);
    lemma_grants(start, repo, CollaboratorKind::Team, team_grants(repo), ra);
    lemma_grants(after_a, repo, CollaboratorKind::User, user_grants(repo), rb);
    lemma_revocations(after_b, repo, CollaboratorKind::Team, stray_teams(repo, teams), rc);
    lemma_revocations(after_c, repo, CollaboratorKind::User, stray_users(repo, users), rd);
    lemma_removals(
        after_b,
        CollaboratorKind::Team,
        stray_teams(repo, teams),
        repo.org,
        repo.name,
    );
    lemma_removals(
        after_c,
        CollaboratorKind::User,
        stray_users(repo, users),
        repo.org,
        repo.name,
    );
    lemma_settled(there_teams, team_grants(repo), bot_accounts(repo));
    lemma_settled(there_users, user_grants(repo), Seq::empty());
    assert(keys(user_grants(repo)) + Seq::empty() =~= keys(user_grants(repo)));
    lemma_no_one_spared(as_map(there_users), user_grants(repo));
}

proof fn lemma_assignments_empty(
    kind: CollaboratorKind,
    wanted: Seq<(Seq<char>, RepoPermission)>,
    actual: Seq<(Seq<char>, RepoPermission)>,
)
    requires
        keys(wanted).no_duplicates(),
    ensures
        assignments(kind, wanted, actual).len() == 0 <==> forall|i: int|
            0 <= i < wanted.len() ==> lookup(actual, (#[trigger] wanted[i]).0) == Some(
                wanted[i].1,
            ),
    decreases wanted.len(),
{
    if wanted.len() > 0 {
        let earlier = wanted.drop_last();
        let last = wanted.last();
        assert forall|a: int, b: int|
            0 <= a < keys(earlier).len() && 0 <= b < keys(earlier).len() && a != b implies keys(
            earlier,
        )[a] != keys(earlier)[b] by {
            assert(keys(wanted)[a] != keys(wanted)[b]);
        }
        lemma_assignments_empty(kind, earlier, actual);
        assert(!keys(earlier).contains(last.0)) by {
            if keys(earlier).contains(last.0) {
                let i = choose|i: int| 0 <= i < keys(earlier).len() && keys(earlier)[i] == last.0;
                assert(keys(wanted)[i] != keys(wanted)[wanted.len() - 1]);
            }
        }
        let all_there = forall|i: int|
            0 <= i < wanted.len() ==> lookup(actual, (#[trigger] wanted[i]).0) == Some(
                wanted[i].1,
            );
        let earlier_there = forall|i: int|
            0 <= i < earlier.len() ==> lookup(actual, (#[trigger] earlier[i]).0) == Some(
                earlier[i].1,
            );
        if all_there {
            assert forall|i: int| 0 <= i < earlier.len() implies lookup(
                actual,
                (#[trigger] earlier[i]).0,
            ) == Some(earlier[i].1) by {
                assert(earlier[i] == wanted[i]);
            }
            assert(wanted[wanted.len() - 1] == last);
        }
        if earlier_there && lookup(actual, last.0) == Some(last.1) {
            assert forall|i: int| 0 <= i < wanted.len() implies lookup(
                actual,
                (#[trigger] wanted[i]).0,
            ) == Some(wanted[i].1) by {
                if i < earlier.len() {
                    assert(earlier[i] == wanted[i]);
                }
            }
        }
    }
}

/// Where somebody is given access twice, there is always a diff.
proof fn lemma_repeated_grant(
    kind: CollaboratorKind,
    wanted: Seq<(Seq<char>, RepoPermission)>,
    actual: Seq<(Seq<char>, RepoPermission)>,
)
    requires
        !keys(wanted).no_duplicates(),
    ensures
        assignments(kind, wanted, actual).len() > 0,
    decreases wanted.len(),
{
    let earlier = wanted.drop_last();
    let names = keys(wanted);
    if keys(earlier).no_duplicates() {
        let (a, b) = choose|a: int, b: int|
            0 <= a < names.len() && 0 <= b < names.len() && a != b && names[a] == names[b];
        assert(keys(earlier).contains(wanted.last().0)) by {
            let other = if a == names.len() - 1 {
                b
            } else {
                a
            };
            assert(a == names.len() - 1 || b == names.len() - 1) by {
                if a < names.len() - 1 && b < names.len() - 1 {
                    assert(keys(earlier)[a] == keys(earlier)[b]);
                }
            }
            assert(keys(earlier)[other] == wanted.last().0);
        }
    } else {
        lemma_repeated_grant(kind, earlier, actual);
    }
}

proof fn lemma_unclaimed_empty(entries: Seq<(Seq<char>, RepoPermission)>, claimed: Seq<Seq<char>>)
    ensures
        unclaimed(entries, claimed).len() == 0 <==> forall|name: Seq<char>| #[trigger]
            keys(entries).contains(name) ==> claimed.contains(name),
{
    let left = unclaimed(entries, claimed);
    lemma_unclaimed(entries, claimed);
    if left.len() == 0 {
        assert forall|name: Seq<char>| #[trigger]
            keys(entries).contains(name) implies claimed.contains(name) by {
            assert(!keys(left).contains(name));
        }
    }
    if forall|name: Seq<char>| #[trigger] keys(entries).contains(name) ==> claimed.contains(name) {
        if left.len() > 0 {
            assert(keys(left)[0] == left[0].0);
            assert(keys(left).contains(left[0].0));
        }
    }
}

/// Creating a repository gives exactly the wanted access to it.
pub proof fn law_new_repository_access(repo: RepoView)
    ensures
        perform_all(
            Access { teams: Map::empty(), users: Map::empty() },
            repo_diff(repo, None)->Create_0.permission_requests(),
        ) == wanted_access(repo, Access { teams: Map::empty(), users: Map::empty() }),
{
    let nobody = Access { teams: Map::empty(), users: Map::empty() };
    let requests = repo_diff(repo, None)->Create_0.permission_requests();
    let ra = team_grants(repo).map_values(
        |grant: (Seq<char>, RepoPermission)| grant_team(repo, grant),
    );
    let rb = user_grants(repo).map_values(
        |grant: (Seq<char>, RepoPermission)| grant_user(repo, grant),
    );
    assert(requests =~= ra + rb);
    lemma_perform_append(nobody, ra, rb);
    lemma_grants(nobody, repo, CollaboratorKind::Team, team_grants(repo), ra);
    let middle = perform_all(nobody, ra);
    lemma_grants(middle, repo, CollaboratorKind::User, user_grants(repo), rb);
    let after = perform_all(nobody, requests);
    assert(after.teams =~= wanted_access(repo, nobody).teams);
    assert(after.users =~= wanted_access(repo, nobody).users);
}

/// Whether no team and no user is given access to a repository twice.
pub open spec fn grants_unique(repo: RepoView) -> bool {
    keys(team_grants(repo)).no_duplicates() && keys(user_grants(repo)).no_duplicates()
}

/// A repository has no permission diffs if and only if it gives nobody access twice and the
/// access to it is the wanted one.
pub proof fn law_no_permission_diffs(
    repo: RepoView,
    teams: Seq<RepoTeamView>,
    users: Seq<RepoUserView>,
)
    ensures
        permission_diffs(repo, teams, users).len() == 0 <==> grants_unique(repo) && listed_access(
            teams,
            users,
        ) == wanted_access(repo, listed_access(teams, users)),
{
    if grants_unique(repo) {
        lemma_no_permission_diffs(repo, teams, users);
    } else if !keys(team_grants(repo)).no_duplicates() {
        lemma_repeated_grant(CollaboratorKind::Team, team_grants(repo), listed_teams(teams));
    } else {
        lemma_repeated_grant(CollaboratorKind::User, user_grants(repo), listed_users(users));
    }
}

proof fn lemma_no_permission_diffs(
    repo: RepoView,
    teams: Seq<RepoTeamView>,
    users: Seq<RepoUserView>,
)
    requires
        grants_unique(repo),
    ensures
        permission_diffs(repo, teams, users).len() == 0 <==> listed_access(teams, users)
            == wanted_access(repo, listed_access(teams, users)),
{
    let start = listed_access(teams, users);
    let wanted = wanted_access(repo, start);
    let there_teams = listed_teams(teams);
    let there_users = listed_users(users);
    let bots = bot_accounts(repo);
    let team_claims = keys(team_grants(repo)) + bots;
    lemma_assignments_empty(CollaboratorKind::Team, team_grants(repo), there_teams);
    lemma_assignments_empty(CollaboratorKind::User, user_grants(repo), there_users);
    lemma_unclaimed_empty(there_teams, team_claims);
    lemma_unclaimed_empty(there_users, keys(user_grants(repo)));
    assert forall|who: Seq<char>| #[trigger]
        team_claims.contains(who) <==> keys(team_grants(repo)).contains(who) || bots.contains(
            who,
        ) by {
        let grants = keys(team_grants(repo));
        if grants.contains(who) {
            let i = choose|i: int| 0 <= i < grants.len() && grants[i] == who;
            assert(team_claims[i] == who);
        }
        if bots.contains(who) {
            let i = choose|i: int| 0 <= i < bots.len() && bots[i] == who;
            assert(team_claims[i + grants.len()] == who);
        }
    }
    if permission_diffs(repo, teams, users).len() == 0 {
        law_permission_diffs_converge(repo, teams, users, repo.org, repo.name);
        assert(access_requests(permission_diffs(repo, teams, users), repo.org, repo.name)
            =~= Seq::empty());
    }
    if start == wanted {
        assert forall|i: int| 0 <= i < team_grants(repo).len() implies lookup(
            there_teams,
            (#[trigger] team_grants(repo)[i]).0,
        ) == Some(team_grants(repo)[i].1) by {
            let who = team_grants(repo)[i].0;
            lemma_lookup_entry(team_grants(repo), i);
            lemma_lookup(team_grants(repo), who);
            lemma_lookup(there_teams, who);
            assert(wanted.teams.contains_key(who));
            assert(start.teams.contains_key(who));
            assert(start.teams[who] == wanted.teams[who]);
        }
        assert forall|i: int| 0 <= i < user_grants(repo).len() implies lookup(
            there_users,
            (#[trigger] user_grants(repo)[i]).0,
        ) == Some(user_grants(repo)[i].1) by {
            let who = user_grants(repo)[i].0;
            lemma_lookup_entry(user_grants(repo), i);
            lemma_lookup(user_grants(repo), who);
            lemma_lookup(there_users, who);
            assert(wanted.users.contains_key(who));
            assert(start.users.contains_key(who));
            assert(start.users[who] == wanted.users[who]);
        }
        assert forall|who: Seq<char>| #[trigger]
            keys(there_teams).contains(who) implies team_claims.contains(who) by {
            assert(start.teams.contains_key(who));
            assert(wanted.teams.contains_key(who));
        }
        assert forall|who: Seq<char>| #[trigger]
            keys(there_users).contains(who) implies keys(user_grants(repo)).contains(who) by {
            assert(start.users.contains_key(who));
            assert(wanted.users.contains_key(who));
        }
    }
}

/// After the permission diffs of a repository were carried out there are no more: whatever is
/// listed then, if it is the access that carrying them out led to, needs no diff.
pub proof fn law_permission_diffs_settle(
    repo: RepoView,
    teams: Seq<RepoTeamView>,
    users: Seq<RepoUserView>,
    later_teams: Seq<RepoTeamView>,
    later_users: Seq<RepoUserView>,
    org: Seq<char>,
    name: Seq<char>,
)
    requires
        grants_unique(repo),
        listed_access(later_teams, later_users) == perform_all(
            listed_access(teams, users),
            access_requests(permission_diffs(repo, teams, users), org, name),
        ),
    ensures
        permission_diffs(repo, later_teams, later_users).len() == 0,
{
    law_permission_diffs_converge(repo, teams, users, org, name);
    law_no_permission_diffs(repo, later_teams, later_users);
    let later = listed_access(later_teams, later_users);
    let settled = wanted_access(repo, later);
    assert(later.teams =~= settled.teams);
    assert(later.users =~= settled.users);
}

} // verus!
