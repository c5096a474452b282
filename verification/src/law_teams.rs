//! Laws about teams and their members.
use vstd::prelude::*;

use crate::api::{TeamMemberView, TeamRole, TeamView};
use crate::apply::{member_request, member_requests};
use crate::call::RequestView;
use crate::diff::{DeleteTeamDiffView, MemberDiff, TeamDiffView};
use crate::lists::{
    as_map, distinct, keys, latest, law_distinct, lemma_kept, lemma_latest, lemma_lookup,
    lemma_lookup_entry, lemma_unclaimed, lookup, unclaimed,
};
use crate::rules::{bot_team, DEFAULT_DESCRIPTION, DEFAULT_PRIVACY};
use crate::sync::{
    all_members, github_teams, org_names, role_of, with_owners, SyncGitHubView,
};
use crate::team_data::GitHubTeamView;
use crate::teams::{
    member_diffs, members_known, names_in_org, stray_team_names, team_deletions, team_diff,
    wanted_member_diffs, ActualTeamView,
};

verus! {

/// The roles of the listed members, by their ids.
pub open spec fn listed_roles(actual: Seq<(usize, TeamMemberView)>) -> Map<usize, TeamRole> {
    as_map(actual).map_values(|member: TeamMemberView| member.role)
}

/// The roles that the members of a team are to have, by their ids.
pub open spec fn wanted_roles(sync: SyncGitHubView, team: GitHubTeamView) -> Map<usize, TeamRole> {
    Map::new(
        |id: usize| team.members.contains(id),
        |id: usize| role_of(sync.org_owners, team.org, id),
    )
}

/// What a call about a team does to the roles of its members, by their names.
pub open spec fn perform(roles: Map<Seq<char>, TeamRole>, request: RequestView) -> Map<
    Seq<char>,
    TeamRole,
> {
    match request {
        RequestView::SetTeamMembership { user, role, .. } => roles.insert(user, role),
        RequestView::RemoveTeamMembership { user, .. } => roles.remove(user),
        _ => roles,
    }
}

/// What some calls about a team do to the roles of its members, one after the other.
pub open spec fn perform_all(
    roles: Map<Seq<char>, TeamRole>,
    requests: Seq<RequestView>,
) -> Map<Seq<char>, TeamRole>
    decreases requests.len(),
{
    if requests.len() == 0 {
        roles
    } else {
        perform(perform_all(roles, requests.drop_last()), requests.last())
    }
}

/// Whether roles by name and roles by id say the same, where `names` tells the name of each id.
pub open spec fn same_roles(
    names: Map<usize, Seq<char>>,
    by_name: Map<Seq<char>, TeamRole>,
    by_id: Map<usize, TeamRole>,
) -> bool {
    &&& forall|id: usize| #[trigger]
        names.contains_key(id) ==> (by_name.contains_key(names[id]) <==> by_id.contains_key(id))
    &&& forall|id: usize| #[trigger]
        names.contains_key(id) && by_id.contains_key(id) ==> by_name[names[id]] == by_id[id]
    &&& forall|user: Seq<char>| #[trigger]
        by_name.contains_key(user) ==> names.contains_value(user)
}

/// Whether `names` is a directory of the users in question: each id has a name of its own, and
/// the names of the wanted and of the listed members are those of the directory.
pub open spec fn is_directory(
    names: Map<usize, Seq<char>>,
    sync: SyncGitHubView,
    team: GitHubTeamView,
    actual: Seq<(usize, TeamMemberView)>,
) -> bool {
    &&& names.is_injective()
    &&& forall|i: int|
        0 <= i < team.members.len() ==> names.contains_key(#[trigger] team.members[i])
            && names[team.members[i]] == sync.usernames[team.members[i]]
    &&& forall|i: int|
        0 <= i < actual.len() ==> names.contains_key((#[trigger] actual[i]).0) && names[actual[i].0]
            == actual[i].1.username
}

/// Carrying out calls in two parts is carrying them out in one go.
pub proof fn lemma_perform_append(
    roles: Map<Seq<char>, TeamRole>,
    a: Seq<RequestView>,
    b: Seq<RequestView>,
)
    ensures
        perform_all(roles, a + b) == perform_all(perform_all(roles, a), b),
    decreases b.len(),
{
    if b.len() == 0 {
        assert(a + b =~= a);
    } else {
        assert((a + b).drop_last() =~= a + b.drop_last());
        lemma_perform_append(roles, a, b.drop_last());
    }
}

proof fn lemma_requests_append(
    org: Seq<char>,
    team: Seq<char>,
    a: Seq<(Seq<char>, MemberDiff)>,
    b: Seq<(Seq<char>, MemberDiff)>,
)
    ensures
        member_requests(org, team, a + b) == member_requests(org, team, a) + member_requests(
            org,
            team,
            b,
        ),
    decreases b.len(),
{
    if b.len() == 0 {
        assert(a + b =~= a);
        assert(member_requests(org, team, a) + member_requests(org, team, b) =~= member_requests(
            org,
            team,
            a,
        ));
    } else {
        assert((a + b).drop_last() =~= a + b.drop_last());
        lemma_requests_append(org, team, a, b.drop_last());
        assert(member_requests(org, team, a + b) =~= member_requests(org, team, a)
            + member_requests(org, team, b));
    }
}

/// Carrying out the diffs of the wanted members gives each of them its role and touches nobody
/// else.
proof fn lemma_wanted_converge(
    before: Map<Seq<char>, TeamRole>,
    names: Map<usize, Seq<char>>,
    sync: SyncGitHubView,
    team: GitHubTeamView,
    actual: Seq<(usize, TeamMemberView)>,
    count: int,
    called: Seq<char>,
)
    requires
        0 <= count <= team.members.len(),
        is_directory(names, sync, team, actual),
        same_roles(names, before, listed_roles(actual)),
    ensures
        ({
            let members = team.members.take(count);
            let after = perform_all(
                before,
                member_requests(
                    team.org,
                    called,
                    wanted_member_diffs(sync, team.org, members, actual),
                ),
            );
            &&& forall|id: usize| #[trigger]
                names.contains_key(id) ==> if members.contains(id) {
                    after.contains_key(names[id]) && after[names[id]] == role_of(
                        sync.org_owners,
                        team.org,
                        id,
                    )
                } else {
                    (after.contains_key(names[id]) <==> before.contains_key(names[id]))
                        && after[names[id]] == before[names[id]]
                }
            &&& forall|user: Seq<char>| #[trigger]
                after.contains_key(user) ==> names.contains_value(user)
        }),
    decreases count,
{
    let members = team.members.take(count);
    let diffs = wanted_member_diffs(sync, team.org, members, actual);
    let after = perform_all(before, member_requests(team.org, called, diffs));
    if count > 0 {
        let earlier = team.members.take(count - 1);
        let member = team.members[count - 1];
        assert(members.drop_last() =~= earlier);
        assert(members.last() == member);
        lemma_wanted_converge(before, names, sync, team, actual, count - 1, called);
        let middle = perform_all(
            before,
            member_requests(
                team.org,
                called,
                wanted_member_diffs(sync, team.org, earlier, actual),
            ),
        );
        assert(diffs.drop_last() =~= wanted_member_diffs(sync, team.org, earlier, actual));
        let role = role_of(sync.org_owners, team.org, member);
        assert(names.contains_key(team.members[count - 1]));
        lemma_lookup(actual, member);
        let entry = diffs.last();
        assert(entry.0 == names[member]);
        match member_request(entry.1, team.org, called, entry.0) {
            Some(request) => {
                let requests = member_requests(team.org, called, diffs);
                assert(requests.drop_last() =~= member_requests(
                    team.org,
                    called,
                    diffs.drop_last(),
                ));
                assert(requests.last() == request);
                assert(after == perform(middle, request));
                assert(after == middle.insert(names[member], role));
            },
            None => {
                assert(after == middle);
                assert(listed_roles(actual).contains_key(member));
                assert(!earlier.contains(member));
                assert(before[names[member]] == role);
            },
        }
        assert forall|id: usize| #[trigger]
            members.contains(id) <==> earlier.contains(id) || id == member by {
            if earlier.contains(id) {
                let i = choose|i: int| 0 <= i < earlier.len() && earlier[i] == id;
                assert(members[i] == id);
            }
            if members.contains(id) {
                let i = choose|i: int| 0 <= i < members.len() && members[i] == id;
                if i < count - 1 {
                    assert(earlier[i] == id);
                }
            }
            if id == member {
                assert(members[count - 1] == id);
            }
        }
        assert forall|id: usize| #[trigger] names.contains_key(id) implies if members.contains(
            id,
        ) {
            after.contains_key(names[id]) && after[names[id]] == role_of(
                sync.org_owners,
                team.org,
                id,
            )
        } else {
            (after.contains_key(names[id]) <==> before.contains_key(names[id]))
                && after[names[id]] == before[names[id]]
        } by {
            if id != member {
                assert(names[id] != names[member]);
            }
        }
        assert(names.contains_value(names[member])) by {
            assert(names.dom().contains(member) && names[member] == names[member]);
        }
    }
}

/// The diffs that delete members.
spec fn deletions(left: Seq<(usize, TeamMemberView)>) -> Seq<(Seq<char>, MemberDiff)> {
    left.map_values(|entry: (usize, TeamMemberView)| (entry.1.username, MemberDiff::Delete))
}

proof fn lemma_deletions(
    before: Map<Seq<char>, TeamRole>,
    names: Map<usize, Seq<char>>,
    left: Seq<(usize, TeamMemberView)>,
    org: Seq<char>,
    called: Seq<char>,
)
    requires
        names.is_injective(),
        forall|i: int|
            0 <= i < left.len() ==> names.contains_key((#[trigger] left[i]).0) && names[left[i].0]
                == left[i].1.username,
    ensures
        ({
            let after = perform_all(before, member_requests(org, called, deletions(left)));
            &&& forall|id: usize| #[trigger]
                names.contains_key(id) ==> {
                    &&& after.contains_key(names[id]) <==> before.contains_key(names[id])
                        && !keys(left).contains(id)
                    &&& after.contains_key(names[id]) ==> after[names[id]] == before[names[id]]
                }
            &&& forall|user: Seq<char>| #[trigger]
                after.contains_key(user) ==> before.contains_key(user)
        }),
    decreases left.len(),
{
    let diffs = deletions(left);
    let after = perform_all(before, member_requests(org, called, diffs));
    if left.len() > 0 {
        let earlier = left.drop_last();
        let last = left.last();
        assert forall|i: int| 0 <= i < earlier.len() implies names.contains_key(
            (#[trigger] earlier[i]).0,
        ) && names[earlier[i].0] == earlier[i].1.username by {
            assert(earlier[i] == left[i]);
        }
        lemma_deletions(before, names, earlier, org, called);
        let middle = perform_all(before, member_requests(org, called, deletions(earlier)));
        assert(diffs.drop_last() =~= deletions(earlier));
        let requests = member_requests(org, called, diffs);
        assert(requests.drop_last() =~= member_requests(org, called, deletions(earlier)));
        assert(left[left.len() - 1] == last);
        assert(after == middle.remove(names[last.0]));
        assert(keys(left) =~= keys(earlier).push(last.0));
        assert forall|id: usize| #[trigger] names.contains_key(id) implies {
            &&& after.contains_key(names[id]) <==> before.contains_key(names[id]) && !keys(
                left,
            ).contains(id)
            &&& after.contains_key(names[id]) ==> after[names[id]] == before[names[id]]
        } by {
            lemma_lookup(left, id);
            lemma_lookup(earlier, id);
            if id != last.0 {
                assert(names[id] != names[last.0]);
            }
        }
    }
}

/// The latest entries are among the entries, and have the same keys.
proof fn lemma_latest_entries(entries: Seq<(usize, TeamMemberView)>)
    ensures
        forall|i: int|
            0 <= i < latest(entries).len() ==> entries.contains(#[trigger] latest(entries)[i]),
        forall|id: usize| #[trigger]
            keys(latest(entries)).contains(id) <==> keys(entries).contains(id),
{
    lemma_latest(entries);
    assert forall|i: int| 0 <= i < latest(entries).len() implies entries.contains(
        #[trigger] latest(entries)[i],
    ) by {
        lemma_lookup_entry(latest(entries), i);
        lemma_lookup(entries, latest(entries)[i].0);
        assert(lookup(latest(entries), latest(entries)[i].0) == lookup(
            entries,
            latest(entries)[i].0,
        ));
    }
    assert forall|id: usize| #[trigger]
        keys(latest(entries)).contains(id) <==> keys(entries).contains(id) by {
        lemma_lookup(latest(entries), id);
        lemma_lookup(entries, id);
        assert(lookup(latest(entries), id) == lookup(entries, id));
    }
}

/// Carrying out the member diffs of a team brings its members from what was listed to what is
/// wanted: exactly the wanted members, each in its role.
pub proof fn law_member_diffs_converge(
    before: Map<Seq<char>, TeamRole>,
    names: Map<usize, Seq<char>>,
    sync: SyncGitHubView,
    team: GitHubTeamView,
    actual: Seq<(usize, TeamMemberView)>,
    called: Seq<char>,
)
    requires
        is_directory(names, sync, team, actual),
        same_roles(names, before, listed_roles(actual)),
    ensures
        same_roles(
            names,
            perform_all(
                before,
                member_requests(team.org, called, member_diffs(sync, team, actual)),
            ),
            wanted_roles(sync, team),
        ),
{
    let first = wanted_member_diffs(sync, team.org, team.members, actual);
    let left = unclaimed(latest(actual), team.members);
    assert(member_diffs(sync, team, actual) =~= first + deletions(left));
    lemma_requests_append(team.org, called, first, deletions(left));
    lemma_perform_append(
        before,
        member_requests(team.org, called, first),
        member_requests(team.org, called, deletions(left)),
    );
    assert(team.members.take(team.members.len() as int) =~= team.members);
    lemma_wanted_converge(
        before,
        names,
        sync,
        team,
        actual,
        team.members.len() as int,
        called,
    );
    let middle = perform_all(before, member_requests(team.org, called, first));
    lemma_latest_entries(actual);
    lemma_unclaimed(latest(actual), team.members);
    lemma_kept(latest(actual), |entry: (usize, TeamMemberView)| !team.members.contains(entry.0));
    assert forall|i: int| 0 <= i < left.len() implies names.contains_key((#[trigger] left[i]).0)
        && names[left[i].0] == left[i].1.username by {
        assert(left.contains(left[i]));
        let j = choose|j: int| 0 <= j < latest(actual).len() && latest(actual)[j] == left[i];
        assert(actual.contains(latest(actual)[j]));
        let k = choose|k: int| 0 <= k < actual.len() && actual[k] == left[i];
        assert(names.contains_key(actual[k].0));
    }
    lemma_deletions(middle, names, left, team.org, called);
    let after = perform_all(middle, member_requests(team.org, called, deletions(left)));
    let wanted = wanted_roles(sync, team);
    assert forall|id: usize| #[trigger] names.contains_key(id) implies (after.contains_key(
        names[id],
    ) <==> wanted.contains_key(id)) by {
        assert(keys(left).contains(id) <==> keys(latest(actual)).contains(id)
            && !team.members.contains(id));
        assert(keys(latest(actual)).contains(id) <==> keys(actual).contains(id));
        assert(listed_roles(actual).contains_key(id) <==> keys(actual).contains(id));
    }
    assert forall|id: usize| #[trigger] names.contains_key(id) && wanted.contains_key(
        id,
    ) implies after[names[id]] == wanted[id] by {
        assert(after.contains_key(names[id]));
    }
}

/// Carrying out the creation of a team gives the new team exactly the wanted members, each in
/// its role.
pub proof fn law_new_team_members(
    names: Map<usize, Seq<char>>,
    sync: SyncGitHubView,
    team: GitHubTeamView,
)
    requires
        is_directory(names, sync, team, Seq::empty()),
    ensures
        same_roles(
            names,
            perform_all(Map::empty(), team_diff(sync, team, None).requests()),
            wanted_roles(sync, team),
        ),
{
    let requests = team_diff(sync, team, None).requests();
    lemma_new_members(names, sync, team, team.members.len() as int);
    assert(team.members.take(team.members.len() as int) =~= team.members);
    assert(requests.take(team.members.len() as int + 1) =~= requests);
}

proof fn lemma_new_members(
    names: Map<usize, Seq<char>>,
    sync: SyncGitHubView,
    team: GitHubTeamView,
    count: int,
)
    requires
        is_directory(names, sync, team, Seq::empty()),
        0 <= count <= team.members.len(),
    ensures
        same_roles(
            names,
            perform_all(Map::empty(), team_diff(sync, team, None).requests().take(count + 1)),
            wanted_roles(sync, GitHubTeamView { members: team.members.take(count), ..team }),
        ),
    decreases count,
{
    let requests = team_diff(sync, team, None).requests();
    let now = requests.take(count + 1);
    assert(now.drop_last() =~= requests.take(count));
    let shorter = GitHubTeamView { members: team.members.take(count), ..team };
    let wanted = wanted_roles(sync, shorter);
    let after = perform_all(Map::empty(), now);
    if count == 0 {
        assert(requests.take(0) =~= Seq::empty());
        assert(now.last() is CreateTeam);
        assert(perform_all(Map::empty(), requests.take(0)) == Map::<Seq<char>, TeamRole>::empty());
        assert(after == Map::<Seq<char>, TeamRole>::empty());
    } else {
        lemma_new_members(names, sync, team, count - 1);
        let member = team.members[count - 1];
        let earlier = GitHubTeamView { members: team.members.take(count - 1), ..team };
        let middle = perform_all(Map::empty(), requests.take(count));
        assert(names.contains_key(team.members[count - 1]));
        assert(now.last() == RequestView::SetTeamMembership {
            org: team.org,
            team: team.name,
            user: names[member],
            role: role_of(sync.org_owners, team.org, member),
        });
        assert forall|id: usize| #[trigger]
            shorter.members.contains(id) <==> earlier.members.contains(id) || id == member by {
            if earlier.members.contains(id) {
                let i = choose|i: int|
                    0 <= i < earlier.members.len() && earlier.members[i] == id;
                assert(shorter.members[i] == id);
            }
            if shorter.members.contains(id) {
                let i = choose|i: int|
                    0 <= i < shorter.members.len() && shorter.members[i] == id;
                if i < count - 1 {
                    assert(earlier.members[i] == id);
                }
            }
            if id == member {
                assert(shorter.members[count - 1] == id);
            }
        }
        assert forall|id: usize| #[trigger] names.contains_key(id) implies (after.contains_key(
            names[id],
        ) <==> wanted.contains_key(id)) && (wanted.contains_key(id) ==> after[names[id]]
            == wanted[id]) by {
            if id != member {
                assert(names[id] != names[member]);
            }
        }
        assert(names.contains_value(names[member])) by {
            assert(names.dom().contains(member) && names[member] == names[member]);
        }
    }
}

proof fn lemma_all_stay(
    sync: SyncGitHubView,
    org: Seq<char>,
    members: Seq<usize>,
    actual: Seq<(usize, TeamMemberView)>,
)
    requires
        members.no_duplicates(),
    ensures
        wanted_member_diffs(sync, org, members, actual).len() == members.len(),
        forall|i: int|
            0 <= i < members.len() ==> ((#[trigger] wanted_member_diffs(
                sync,
                org,
                members,
                actual,
            )[i]).1 is Noop <==> lookup(actual, members[i]) is Some && lookup(
                actual,
                members[i],
            )->0.role == role_of(sync.org_owners, org, members[i])),
    decreases members.len(),
{
    if members.len() > 0 {
        let earlier = members.drop_last();
        let member = members.last();
        assert(earlier.no_duplicates());
        lemma_all_stay(sync, org, earlier, actual);
        assert(!earlier.contains(member)) by {
            if earlier.contains(member) {
                let i = choose|i: int| 0 <= i < earlier.len() && earlier[i] == member;
                assert(members[i] == members[members.len() - 1]);
            }
        }
        let diffs = wanted_member_diffs(sync, org, members, actual);
        let before = wanted_member_diffs(sync, org, earlier, actual);
        assert forall|i: int| 0 <= i < members.len() implies ((#[trigger] diffs[i]).1 is Noop
            <==> lookup(actual, members[i]) is Some && lookup(actual, members[i])->0.role
            == role_of(sync.org_owners, org, members[i])) by {
            if i < earlier.len() {
                assert(diffs[i] == before[i]);
                assert(earlier[i] == members[i]);
            }
        }
    }
}

/// Where a member is wanted twice, something is always to be done about it.
proof fn lemma_repeated_member(
    sync: SyncGitHubView,
    org: Seq<char>,
    members: Seq<usize>,
    actual: Seq<(usize, TeamMemberView)>,
)
    requires
        !members.no_duplicates(),
    ensures
        exists|i: int|
            0 <= i < wanted_member_diffs(sync, org, members, actual).len() && !((
            #[trigger] wanted_member_diffs(sync, org, members, actual)[i]).1 is Noop),
    decreases members.len(),
{
    let diffs = wanted_member_diffs(sync, org, members, actual);
    let earlier = members.drop_last();
    let before = wanted_member_diffs(sync, org, earlier, actual);
    assert(diffs.drop_last() =~= before);
    if earlier.no_duplicates() {
        let (a, b) = choose|a: int, b: int|
            0 <= a < members.len() && 0 <= b < members.len() && a != b && members[a] == members[b];
        assert(earlier.contains(members.last())) by {
            let other = if a == members.len() - 1 {
                b
            } else {
                a
            };
            assert(a == members.len() - 1 || b == members.len() - 1) by {
                if a < members.len() - 1 && b < members.len() - 1 {
                    assert(earlier[a] == earlier[b]);
                }
            }
            assert(earlier[other] == members.last());
        }
        assert(!(diffs[diffs.len() - 1].1 is Noop));
    } else {
        lemma_repeated_member(sync, org, earlier, actual);
        let i = choose|i: int| 0 <= i < before.len() && !((#[trigger] before[i]).1 is Noop);
        assert(diffs[i] == before[i]);
    }
}

/// A team needs no change if and only if it names no member twice, its name, its description
/// and its privacy are the wanted ones, and it has exactly the wanted members, each in its role.
pub proof fn law_team_noop(sync: SyncGitHubView, wanted: GitHubTeamView, actual: ActualTeamView)
    ensures
        team_diff(sync, wanted, Some(actual)) is Edit,
        team_diff(sync, wanted, Some(actual))->Edit_0.is_noop() <==> {
            &&& wanted.members.no_duplicates()
            &&& actual.team.name == wanted.name
            &&& actual.team.description == DEFAULT_DESCRIPTION@
            &&& actual.team.privacy == DEFAULT_PRIVACY
            &&& listed_roles(actual.members) == wanted_roles(sync, wanted)
        },
{
    let edit = team_diff(sync, wanted, Some(actual))->Edit_0;
    let first = wanted_member_diffs(sync, wanted.org, wanted.members, actual.members);
    let left = unclaimed(latest(actual.members), wanted.members);
    let diffs = member_diffs(sync, wanted, actual.members);
    assert(diffs =~= first + deletions(left));
    assert(edit.member_diffs == diffs);
    if !wanted.members.no_duplicates() {
        lemma_repeated_member(sync, wanted.org, wanted.members, actual.members);
        let i = choose|i: int| 0 <= i < first.len() && !((#[trigger] first[i]).1 is Noop);
        assert(diffs[i] == first[i]);
    } else {
        lemma_team_noop(sync, wanted, actual);
    }
}

/// The members of a team that names none twice need no change if and only if they are exactly
/// the wanted ones, each in its role.
proof fn lemma_team_noop(sync: SyncGitHubView, wanted: GitHubTeamView, actual: ActualTeamView)
    requires
        wanted.members.no_duplicates(),
    ensures
        (forall|i: int|
            0 <= i < member_diffs(sync, wanted, actual.members).len() ==> (
            #[trigger] member_diffs(sync, wanted, actual.members)[i]).1 is Noop)
            <==> listed_roles(actual.members) == wanted_roles(sync, wanted),
{
    let first = wanted_member_diffs(sync, wanted.org, wanted.members, actual.members);
    let left = unclaimed(latest(actual.members), wanted.members);
    let diffs = member_diffs(sync, wanted, actual.members);
    assert(diffs =~= first + deletions(left));
    lemma_all_stay(sync, wanted.org, wanted.members, actual.members);
    lemma_latest_entries(actual.members);
    lemma_unclaimed(latest(actual.members), wanted.members);
    let listed = listed_roles(actual.members);
    let roles = wanted_roles(sync, wanted);
    let stays = forall|i: int| 0 <= i < diffs.len() ==> (#[trigger] diffs[i]).1 is Noop;
    if stays {
        assert(left.len() == 0) by {
            if left.len() > 0 {
                assert(diffs[first.len() as int] == deletions(left)[0]);
            }
        }
        assert forall|id: usize| listed.contains_key(id) <==> roles.contains_key(id) by {
            lemma_lookup(actual.members, id);
            assert(keys(left).contains(id) <==> keys(latest(actual.members)).contains(id)
                && !wanted.members.contains(id));
            assert(keys(latest(actual.members)).contains(id) <==> keys(actual.members).contains(
                id,
            ));
            assert(!keys(left).contains(id));
            if wanted.members.contains(id) {
                let i = choose|i: int| 0 <= i < wanted.members.len() && wanted.members[i] == id;
                assert(diffs[i] == first[i]);
            }
        }
        assert forall|id: usize| listed.contains_key(id) implies listed[id] == roles[id] by {
            lemma_lookup(actual.members, id);
            assert(roles.contains_key(id));
            let i = choose|i: int| 0 <= i < wanted.members.len() && wanted.members[i] == id;
            assert(diffs[i] == first[i]);
        }
        assert(listed =~= roles);
    }
    if listed == roles {
        assert(left.len() == 0) by {
            if left.len() > 0 {
                let id = left[0].0;
                assert(keys(left)[0] == id);
                assert(keys(left).contains(id));
                assert(keys(latest(actual.members)).contains(id));
                assert(listed.contains_key(id));
                assert(roles.contains_key(id));
            }
        }
        assert forall|i: int| 0 <= i < diffs.len() implies (#[trigger] diffs[i]).1 is Noop by {
            let id = wanted.members[i];
            assert(diffs[i] == first[i]);
            assert(wanted.members.contains(id));
            assert(roles.contains_key(id));
            assert(listed.contains_key(id));
            lemma_lookup(actual.members, id);
            assert(listed[id] == roles[id]);
        }
    }
}

/// After the member diffs of a team that names no member twice were carried out there is
/// nothing more to do about its members.
pub proof fn law_member_diffs_settle(
    before: Map<Seq<char>, TeamRole>,
    names: Map<usize, Seq<char>>,
    sync: SyncGitHubView,
    team: GitHubTeamView,
    actual: Seq<(usize, TeamMemberView)>,
    later: Seq<(usize, TeamMemberView)>,
    called: Seq<char>,
)
    requires
        team.members.no_duplicates(),
        is_directory(names, sync, team, actual),
        is_directory(names, sync, team, later),
        same_roles(names, before, listed_roles(actual)),
        same_roles(
            names,
            perform_all(
                before,
                member_requests(team.org, called, member_diffs(sync, team, actual)),
            ),
            listed_roles(later),
        ),
    ensures
        forall|i: int|
            0 <= i < member_diffs(sync, team, later).len() ==> (#[trigger] member_diffs(
                sync,
                team,
                later,
            )[i]).1 is Noop,
{
    law_member_diffs_converge(before, names, sync, team, actual, called);
    let listed = listed_roles(later);
    let roles = wanted_roles(sync, team);
    let after = perform_all(
        before,
        member_requests(team.org, called, member_diffs(sync, team, actual)),
    );
    assert forall|id: usize| #[trigger] listed.contains_key(id) implies names.contains_key(id) by {
        let i = choose|i: int| 0 <= i < keys(later).len() && keys(later)[i] == id;
        assert(later[i].0 == id);
    }
    assert forall|id: usize| #[trigger] roles.contains_key(id) implies names.contains_key(id) by {
        let i = choose|i: int| 0 <= i < team.members.len() && team.members[i] == id;
        assert(names.contains_key(team.members[i]));
    }
    assert forall|id: usize| listed.contains_key(id) <==> roles.contains_key(id) by {
        if listed.contains_key(id) || roles.contains_key(id) {
            assert(names.contains_key(id));
        }
    }
    assert forall|id: usize| listed.contains_key(id) implies listed[id] == roles[id] by {
        assert(names.contains_key(id));
        assert(roles.contains_key(id));
    }
    assert(listed =~= roles);
    let there = ActualTeamView {
        team: TeamView {
            name: team.name,
            description: DEFAULT_DESCRIPTION@,
            privacy: DEFAULT_PRIVACY,
        },
        members: later,
    };
    law_team_noop(sync, team, there);
    assert(team_diff(sync, team, Some(there))->Edit_0.member_diffs == member_diffs(
        sync,
        team,
        later,
    ));
}

/// A state that is put together from the owners of each of its organizations holds owners for
/// exactly the organizations that one of its GitHub teams is in, each of them once, and for each
/// the owners that were given for it. So an organization in which there are only repositories
/// has no owners here, and nobody would maintain a team in it.
pub proof fn law_owners_of_the_organizations(sync: SyncGitHubView, owners: Seq<Seq<usize>>)
    requires
        owners.len() == org_names(sync.teams).len(),
        sync.org_owners == with_owners(org_names(sync.teams), owners),
    ensures
        keys(sync.org_owners) == org_names(sync.teams),
        keys(sync.org_owners).no_duplicates(),
        forall|org: Seq<char>| #[trigger]
            lookup(sync.org_owners, org) is Some <==> exists|i: int|
                0 <= i < github_teams(sync.teams).len() && (#[trigger] github_teams(
                    sync.teams,
                )[i]).org == org,
        forall|i: int|
            0 <= i < owners.len() ==> lookup(
                sync.org_owners,
                #[trigger] org_names(sync.teams)[i],
            ) == Some(owners[i]),
        forall|org: Seq<char>, user: usize|
            !(exists|i: int|
                0 <= i < github_teams(sync.teams).len() && (#[trigger] github_teams(
                    sync.teams,
                )[i]).org == org) ==> #[trigger] role_of(sync.org_owners, org, user)
                == TeamRole::Member,
{
    let teams = github_teams(sync.teams);
    let all = teams.map_values(|team: GitHubTeamView| team.org);
    let orgs = org_names(sync.teams);
    assert(keys(sync.org_owners) =~= orgs);
    law_distinct(all);
    assert forall|org: Seq<char>| #[trigger]
        lookup(sync.org_owners, org) is Some <==> exists|i: int|
            0 <= i < teams.len() && (#[trigger] teams[i]).org == org by {
        lemma_lookup(sync.org_owners, org);
        assert(orgs.contains(org) <==> all.contains(org));
        if all.contains(org) {
            let i = choose|i: int| 0 <= i < all.len() && all[i] == org;
            assert(teams[i].org == org);
        }
        if exists|i: int| 0 <= i < teams.len() && (#[trigger] teams[i]).org == org {
            let i = choose|i: int| 0 <= i < teams.len() && (#[trigger] teams[i]).org == org;
            assert(all[i] == org);
        }
    }
    assert forall|i: int| 0 <= i < owners.len() implies lookup(
        sync.org_owners,
        #[trigger] orgs[i],
    ) == Some(owners[i]) by {
        lemma_lookup_entry(sync.org_owners, i);
    }
    assert forall|org: Seq<char>, user: usize|
        !(exists|i: int| 0 <= i < teams.len() && (#[trigger] teams[i]).org
            == org) implies #[trigger] role_of(sync.org_owners, org, user) == TeamRole::Member by {
        assert(lookup(sync.org_owners, org) is None);
    }
}

/// What a call about a team does to its properties.
pub open spec fn perform_edit(team: TeamView, request: RequestView) -> TeamView {
    match request {
        RequestView::EditTeam { new_name, new_description, new_privacy, .. } => TeamView {
            name: match new_name {
                Some(name) => name,
                None => team.name,
            },
            description: match new_description {
                Some(description) => description,
                None => team.description,
            },
            privacy: match new_privacy {
                Some(privacy) => privacy,
                None => team.privacy,
            },
        },
        _ => team,
    }
}

/// The first call that carries out the edit of a team goes to the team that was found, and gives
/// it the wanted name, description and privacy.
pub proof fn law_edit_gives_the_wanted_properties(
    sync: SyncGitHubView,
    wanted: GitHubTeamView,
    actual: ActualTeamView,
)
    ensures
        team_diff(sync, wanted, Some(actual)).requests().len() > 0,
        ({
            let first = team_diff(sync, wanted, Some(actual)).requests()[0];
            &&& first is EditTeam
            &&& first->EditTeam_org == wanted.org
            &&& first->EditTeam_name == actual.team.name
            &&& perform_edit(actual.team, first) == TeamView {
                name: wanted.name,
                description: DEFAULT_DESCRIPTION@,
                privacy: DEFAULT_PRIVACY,
            }
        }),
{
}

proof fn lemma_all_members(teams: Seq<GitHubTeamView>, i: int, j: int)
    requires
        0 <= i < teams.len(),
        0 <= j < teams[i].members.len(),
    ensures
        all_members(teams).contains(teams[i].members[j]),
    decreases teams.len(),
{
    let member = teams[i].members[j];
    let earlier = all_members(teams.drop_last());
    let all = all_members(teams);
    if i == teams.len() - 1 {
        assert(all[earlier.len() + j] == member);
    } else {
        assert(teams.drop_last()[i] == teams[i]);
        lemma_all_members(teams.drop_last(), i, j);
        let k = choose|k: int| 0 <= k < earlier.len() && earlier[k] == member;
        assert(all[k] == member);
    }
}

/// Once the usernames of all listed users are known, so are those of the members of every team.
pub proof fn law_users_cover_all_members(sync: SyncGitHubView)
    requires
        forall|user: usize| #[trigger]
            distinct(all_members(github_teams(sync.teams))).contains(user)
                ==> sync.usernames.contains_key(user),
    ensures
        forall|i: int|
            0 <= i < github_teams(sync.teams).len() ==> members_known(
                sync,
                #[trigger] github_teams(sync.teams)[i],
            ),
{
    let teams = github_teams(sync.teams);
    law_distinct(all_members(teams));
    assert forall|i: int| 0 <= i < teams.len() implies members_known(
        sync,
        #[trigger] teams[i],
    ) by {
        assert forall|j: int| 0 <= j < teams[i].members.len() implies sync.usernames.contains_key(
            #[trigger] teams[i].members[j],
        ) by {
            lemma_all_members(teams, i, j);
            assert(distinct(all_members(teams)).contains(teams[i].members[j]));
        }
    }
}

/// Whether a team with a name is wanted in an organization.
pub open spec fn is_wanted(sync: SyncGitHubView, org: Seq<char>, name: Seq<char>) -> bool {
    exists|i: int|
        0 <= i < github_teams(sync.teams).len() && (#[trigger] github_teams(sync.teams)[i]).org
            == org && github_teams(sync.teams)[i].name == name
}

proof fn lemma_names_in_org(teams: Seq<GitHubTeamView>, org: Seq<char>, name: Seq<char>)
    ensures
        names_in_org(teams, org).contains(name) <==> exists|i: int|
            0 <= i < teams.len() && (#[trigger] teams[i]).org == org && teams[i].name == name,
{
    let in_org = |team: GitHubTeamView| team.org == org;
    let kept = teams.filter(in_org);
    let names = names_in_org(teams, org);
    lemma_kept(teams, in_org);
    if names.contains(name) {
        let j = choose|j: int| 0 <= j < names.len() && names[j] == name;
        assert(kept.contains(kept[j]));
        assert(teams.contains(kept[j]) && in_org(kept[j]));
        let i = choose|i: int| 0 <= i < teams.len() && teams[i] == kept[j];
        assert(teams[i].org == org && teams[i].name == name);
    }
    if exists|i: int|
        0 <= i < teams.len() && (#[trigger] teams[i]).org == org && teams[i].name == name {
        let i = choose|i: int|
            0 <= i < teams.len() && (#[trigger] teams[i]).org == org && teams[i].name == name;
        assert(kept.contains(teams[i]));
        let j = choose|j: int| 0 <= j < kept.len() && kept[j] == teams[i];
        assert(names[j] == name);
    }
}

/// Exactly those teams are deleted, each once, that were listed in the `rust-lang`
/// organization, are not wanted there and are none of the bots' teams.
pub proof fn law_deleted_teams(
    sync: SyncGitHubView,
    listings: Seq<(Seq<char>, Seq<Seq<char>>)>,
)
    ensures
        forall|diff: TeamDiffView| #[trigger]
            team_deletions(sync, listings).contains(diff) <==> {
                &&& diff is Delete
                &&& diff->Delete_0.org == "rust-lang"@
                &&& lookup(listings, "rust-lang"@) is Some
                &&& lookup(listings, "rust-lang"@)->0.contains(diff->Delete_0.name)
                &&& !is_wanted(sync, "rust-lang"@, diff->Delete_0.name)
                &&& !bot_team(diff->Delete_0.name)
            },
        team_deletions(sync, listings).no_duplicates(),
{
    let org = "rust-lang"@;
    let all = team_deletions(sync, listings);
    match lookup(listings, org) {
        Some(listed) => {
            let teams = github_teams(sync.teams);
            let keep = |name: Seq<char>|
                !names_in_org(teams, org).contains(name) && !bot_team(name);
            let once = distinct(listed);
            let stray = stray_team_names(teams, org, listed);
            law_distinct(listed);
            lemma_kept(once, keep);
            assert(stray == once.filter(keep));
            assert forall|diff: TeamDiffView| #[trigger] all.contains(diff) <==> {
                &&& diff is Delete
                &&& diff->Delete_0.org == org
                &&& listed.contains(diff->Delete_0.name)
                &&& !is_wanted(sync, org, diff->Delete_0.name)
                &&& !bot_team(diff->Delete_0.name)
            } by {
                let name = diff->Delete_0.name;
                lemma_names_in_org(teams, org, name);
                assert(stray.contains(name) <==> once.contains(name) && keep(name));
                assert(once.contains(name) <==> listed.contains(name));
                if all.contains(diff) {
                    let i = choose|i: int| 0 <= i < all.len() && all[i] == diff;
                    assert(stray[i] == name);
                    assert(stray.contains(name));
                }
                if diff is Delete && diff->Delete_0.org == org && stray.contains(name) {
                    let i = choose|i: int| 0 <= i < stray.len() && stray[i] == name;
                    assert(all[i] == TeamDiffView::Delete(DeleteTeamDiffView { org, name }));
                    assert(diff == all[i]);
                }
            }
            assert forall|a: int, b: int|
                0 <= a < all.len() && 0 <= b < all.len() && a != b implies all[a] != all[b] by {
                assert(stray[a] != stray[b]);
                assert(all[a]->Delete_0.name == stray[a]);
                assert(all[b]->Delete_0.name == stray[b]);
            }
        },
        None => {},
    }
}

} // verus!
