//! Who has access to a repository: what is wanted, what is there, and the difference.
use vstd::prelude::*;

use crate::api::{RepoPermission, RepoTeam, RepoTeamView, RepoUser, RepoUserView};
use crate::diff::{
    RepoCollaborator, RepoCollaboratorView, RepoPermissionAssignmentDiff,
    RepoPermissionAssignmentDiffView, RepoPermissionDiff,
};
use crate::lists::{contains_name, find_name, keys, latest, lookup, unclaimed};
use crate::rules::{bot_account, bot_name, convert_permission, granted};
use crate::sync::SyncGitHub;
use crate::team_data::{Bot, Repo, RepoMemberView, RepoView};

verus! {

/// The two kinds of collaborators of a repository.
#[derive(Clone, Copy, PartialEq, Eq, Structural, Debug)]
pub enum CollaboratorKind {
    Team,
    User,
}

/// The collaborator of a kind with a name.
pub open spec fn named(kind: CollaboratorKind, name: Seq<char>) -> RepoCollaboratorView {
    match kind {
        CollaboratorKind::Team => RepoCollaboratorView::Team(name),
        CollaboratorKind::User => RepoCollaboratorView::User(name),
    }
}

/// The accounts of the bots of a repository.
pub open spec fn bot_accounts(repo: RepoView) -> Seq<Seq<char>> {
    repo.bots.map_values(|bot: Bot| bot_account(bot))
}

/// The access that teams are to have.
pub open spec fn team_grants(repo: RepoView) -> Seq<(Seq<char>, RepoPermission)> {
    repo.teams.map_values(
        |team: crate::team_data::RepoTeamView| (team.name, granted(team.permission)),
    )
}

/// The access that users are to have: the bots may write, the members have what they were
/// given.
pub open spec fn user_grants(repo: RepoView) -> Seq<(Seq<char>, RepoPermission)> {
    bot_accounts(repo).map_values(|account: Seq<char>| (account, RepoPermission::Write))
        + repo.members.map_values(
        |member: RepoMemberView| (member.name, granted(member.permission)),
    )
}

/// The access that the listed teams have, one entry for each name.
pub open spec fn listed_teams(teams: Seq<RepoTeamView>) -> Seq<(Seq<char>, RepoPermission)> {
    latest(teams.map_values(|team: RepoTeamView| (team.name, team.permission)))
}

/// The access that the listed users have, one entry for each name.
pub open spec fn listed_users(users: Seq<RepoUserView>) -> Seq<(Seq<char>, RepoPermission)> {
    latest(users.map_values(|user: RepoUserView| (user.name, user.permission)))
}

/// The change that takes one collaborator from the access that is there to the wanted one;
/// none if they are the same.
pub open spec fn assignment(
    kind: CollaboratorKind,
    name: Seq<char>,
    wanted: RepoPermission,
    actual: Option<RepoPermission>,
) -> Seq<RepoPermissionAssignmentDiffView> {
    match actual {
        Some(permission) => if permission == wanted {
            Seq::empty()
        } else {
            seq![
                RepoPermissionAssignmentDiffView {
                    collaborator: named(kind, name),
                    diff: RepoPermissionDiff::Update(permission, wanted),
                },
            ]
        },
        None => seq![
            RepoPermissionAssignmentDiffView {
                collaborator: named(kind, name),
                diff: RepoPermissionDiff::Create(wanted),
            },
        ],
    }
}

/// The changes for all wanted collaborators of a kind, in their order. An entry that is there
/// is held against the first wanted one of its name only.
pub open spec fn assignments(
    kind: CollaboratorKind,
    wanted: Seq<(Seq<char>, RepoPermission)>,
    actual: Seq<(Seq<char>, RepoPermission)>,
) -> Seq<RepoPermissionAssignmentDiffView>
    decreases wanted.len(),
{
    if wanted.len() == 0 {
        Seq::empty()
    } else {
        let earlier = wanted.drop_last();
        let name = wanted.last().0;
        let found = if keys(earlier).contains(name) {
            None
        } else {
            lookup(actual, name)
        };
        assignments(kind, earlier, actual) + assignment(kind, name, wanted.last().1, found)
    }
}

/// The changes that take away the access of the given collaborators.
pub open spec fn removals(
    kind: CollaboratorKind,
    left: Seq<(Seq<char>, RepoPermission)>,
) -> Seq<RepoPermissionAssignmentDiffView> {
    left.map_values(
        |entry: (Seq<char>, RepoPermission)|
            RepoPermissionAssignmentDiffView {
                collaborator: named(kind, entry.0),
                diff: RepoPermissionDiff::Delete(entry.1),
            },
    )
}

/// The teams that have access without being meant to. A team that is named like one of the
/// repository's bots is none of them.
pub open spec fn stray_teams(repo: RepoView, teams: Seq<RepoTeamView>) -> Seq<
    (Seq<char>, RepoPermission),
> {
    unclaimed(listed_teams(teams), keys(team_grants(repo)) + bot_accounts(repo))
}

/// The users that have access without being meant to.
pub open spec fn stray_users(repo: RepoView, users: Seq<RepoUserView>) -> Seq<
    (Seq<char>, RepoPermission),
> {
    unclaimed(listed_users(users), keys(user_grants(repo)))
}

/// The difference between the wanted access to a repository and the access that there is:
/// what the teams need, what the bots and members need, then what is to be taken away.
pub open spec fn permission_diffs(
    repo: RepoView,
    teams: Seq<RepoTeamView>,
    users: Seq<RepoUserView>,
) -> Seq<RepoPermissionAssignmentDiffView> {
    assignments(CollaboratorKind::Team, team_grants(repo), listed_teams(teams)) + assignments(
        CollaboratorKind::User,
        user_grants(repo),
        listed_users(users),
    ) + removals(CollaboratorKind::Team, stray_teams(repo, teams)) + removals(
        CollaboratorKind::User,
        stray_users(repo, users),
    )
}

fn collaborator(kind: CollaboratorKind, name: &String) -> (collaborator: RepoCollaborator)
    ensures
        collaborator.deep_view() == named(kind, name@),
{
    match kind {
        CollaboratorKind::Team => RepoCollaborator::Team(name.clone()),
        CollaboratorKind::User => RepoCollaborator::User(name.clone()),
    }
}

/// Lists the access that teams are to have.
pub(crate) fn wanted_teams(repo: &Repo) -> (grants: Vec<(String, RepoPermission)>)
    ensures
        grants.deep_view() == team_grants(repo.deep_view()),
{
    let mut grants: Vec<(String, RepoPermission)> = Vec::new();
    for i in 0..repo.teams.len()
        invariant
            grants.len() == i,
            forall|j: int|
                0 <= j < i ==> #[trigger] grants@[j].deep_view() == team_grants(
                    repo.deep_view(),
                )[j],
    {
        grants.push((repo.teams[i].name.clone(), convert_permission(&repo.teams[i].permission)));
    }
    assert(grants.deep_view() =~= team_grants(repo.deep_view()));
    grants
}

/// Lists the accounts of the bots of a repository.
pub(crate) fn accounts_of_bots(repo: &Repo) -> (accounts: Vec<String>)
    ensures
        accounts.deep_view() == bot_accounts(repo.deep_view()),
{
    let mut accounts: Vec<String> = Vec::new();
    for i in 0..repo.bots.len()
        invariant
            accounts.len() == i,
            forall|j: int|
                0 <= j < i ==> #[trigger] accounts@[j]@ == bot_accounts(repo.deep_view())[j],
    {
        accounts.push(bot_name(&repo.bots[i]).to_owned());
    }
    assert(accounts.deep_view() =~= bot_accounts(repo.deep_view()));
    accounts
}

/// Lists the access that users are to have.
pub(crate) fn wanted_users(repo: &Repo) -> (grants: Vec<(String, RepoPermission)>)
    ensures
        grants.deep_view() == user_grants(repo.deep_view()),
{
    let mut grants: Vec<(String, RepoPermission)> = Vec::new();
    for i in 0..repo.bots.len()
        invariant
            grants.len() == i,
            forall|j: int|
                0 <= j < i ==> #[trigger] grants@[j].deep_view() == user_grants(
                    repo.deep_view(),
                )[j],
    {
        grants.push((bot_name(&repo.bots[i]).to_owned(), RepoPermission::Write));
    }
    for i in 0..repo.members.len()
        invariant
            grants.len() == repo.bots.len() + i,
            forall|j: int|
                0 <= j < grants.len() ==> #[trigger] grants@[j].deep_view() == user_grants(
                    repo.deep_view(),
                )[j],
    {
        let member = &repo.members[i];
        grants.push((member.name.clone(), convert_permission(&member.permission)));
    }
    assert(grants.deep_view() =~= user_grants(repo.deep_view()));
    grants
}

/// Drops the entries whose names are claimed.
pub(crate) fn unclaimed_grants(
    entries: &Vec<(String, RepoPermission)>,
    claimed: &Vec<String>,
) -> (left: Vec<(String, RepoPermission)>)
    ensures
        left.deep_view() == unclaimed(entries.deep_view(), claimed.deep_view()),
{
    let ghost all = entries.deep_view();
    let ghost keep = |entry: (Seq<char>, RepoPermission)| !claimed.deep_view().contains(entry.0);
    let mut left: Vec<(String, RepoPermission)> = Vec::new();
    assert(left.deep_view() =~= all.take(0).filter(keep)) by {
        reveal(Seq::filter);
    }
    for i in 0..entries.len()
        invariant
            all == entries.deep_view(),
            keep == (|entry: (Seq<char>, RepoPermission)|
                !claimed.deep_view().contains(entry.0)),
            left.deep_view() == all.take(i as int).filter(keep),
    {
        let ghost before = left.deep_view();
        proof {
            all.take(i as int).lemma_filter_push(all[i as int], keep);
            assert(all.take(i + 1) =~= all.take(i as int).push(all[i as int]));
        }
        if !contains_name(claimed, &entries[i].0) {
            left.push((entries[i].0.clone(), entries[i].1));
            assert(left.deep_view() =~= before.push(all[i as int]));
        }
    }
    assert(all.take(entries.len() as int) =~= all);
    left
}

fn latest_grants(entries: &Vec<(String, RepoPermission)>) -> (grants: Vec<
    (String, RepoPermission),
>)
    ensures
        grants.deep_view() == latest(entries.deep_view()),
{
    let ghost all = entries.deep_view();
    let mut grants: Vec<(String, RepoPermission)> = Vec::new();
    assert(grants.deep_view() =~= latest(all.take(0)));
    for i in 0..entries.len()
        invariant
            all == entries.deep_view(),
            grants.deep_view() == latest(all.take(i as int)),
    {
        let mut replaced: Vec<String> = Vec::new();
        replaced.push(entries[i].0.clone());
        assert(replaced.deep_view() =~= seq![all[i as int].0]);
        grants = unclaimed_grants(&grants, &replaced);
        let ghost before = grants.deep_view();
        grants.push((entries[i].0.clone(), entries[i].1));
        proof {
            assert(grants.deep_view() =~= before.push(all[i as int]));
            assert(all.take(i + 1).drop_last() =~= all.take(i as int));
            assert(all.take(i + 1).last() == all[i as int]);
        }
    }
    assert(all.take(entries.len() as int) =~= all);
    grants
}

/// Lists the access that teams have, one entry for each name.
pub(crate) fn actual_teams(teams: &Vec<RepoTeam>) -> (grants: Vec<(String, RepoPermission)>)
    ensures
        grants.deep_view() == listed_teams(teams.deep_view()),
{
    let mut entries: Vec<(String, RepoPermission)> = Vec::new();
    for i in 0..teams.len()
        invariant
            entries.len() == i,
            forall|j: int|
                0 <= j < i ==> #[trigger] entries@[j].deep_view() == (
                    teams@[j].name@,
                    teams@[j].permission,
                ),
    {
        entries.push((teams[i].name.clone(), teams[i].permission));
    }
    assert(entries.deep_view() =~= teams.deep_view().map_values(
        |team: RepoTeamView| (team.name, team.permission),
    ));
    latest_grants(&entries)
}

/// Lists the access that users have, one entry for each name.
pub(crate) fn actual_users(users: &Vec<RepoUser>) -> (grants: Vec<(String, RepoPermission)>)
    ensures
        grants.deep_view() == listed_users(users.deep_view()),
{
    let mut entries: Vec<(String, RepoPermission)> = Vec::new();
    for i in 0..users.len()
        invariant
            entries.len() == i,
            forall|j: int|
                0 <= j < i ==> #[trigger] entries@[j].deep_view() == (
                    users@[j].name@,
                    users@[j].permission,
                ),
    {
        entries.push((users[i].name.clone(), users[i].permission));
    }
    assert(entries.deep_view() =~= users.deep_view().map_values(
        |user: RepoUserView| (user.name, user.permission),
    ));
    latest_grants(&entries)
}

/// Lists the names of some grants.
pub(crate) fn grant_names(grants: &Vec<(String, RepoPermission)>) -> (names: Vec<String>)
    ensures
        names.deep_view() == keys(grants.deep_view()),
{
    let mut names: Vec<String> = Vec::new();
    for i in 0..grants.len()
        invariant
            names.len() == i,
            forall|j: int| 0 <= j < i ==> #[trigger] names@[j]@ == grants@[j].0@,
    {
        names.push(grants[i].0.clone());
    }
    assert(names.deep_view() =~= keys(grants.deep_view()));
    names
}

/// Adds the changes for all wanted collaborators of a kind to `diffs`.
fn push_assignments(
    diffs: &mut Vec<RepoPermissionAssignmentDiff>,
    kind: CollaboratorKind,
    wanted: &Vec<(String, RepoPermission)>,
    actual: &Vec<(String, RepoPermission)>,
)
    ensures
        final(diffs).deep_view() == old(diffs).deep_view() + assignments(
            kind,
            wanted.deep_view(),
            actual.deep_view(),
        ),
{
    let ghost start = diffs.deep_view();
    let ghost all = wanted.deep_view();
    let ghost there = actual.deep_view();
    let mut claimed: Vec<String> = Vec::new();
    assert(claimed.deep_view() =~= keys(all.take(0)));
    assert(diffs.deep_view() =~= start + assignments(kind, all.take(0), there));
    for i in 0..wanted.len()
        invariant
            all == wanted.deep_view(),
            there == actual.deep_view(),
            claimed.deep_view() == keys(all.take(i as int)),
            diffs.deep_view() == start + assignments(kind, all.take(i as int), there),
    {
        let name = &wanted[i].0;
        let permission = wanted[i].1;
        let found: Option<RepoPermission> = if contains_name(&claimed, name) {
            None
        } else {
            match find_name(actual, name) {
                Some(permission) => Some(*permission),
                None => None,
            }
        };
        let ghost before = diffs.deep_view();
        let ghost names = claimed.deep_view();
        match found {
            Some(actual_permission) => {
                if actual_permission != permission {
                    diffs.push(
                        RepoPermissionAssignmentDiff {
                            collaborator: collaborator(kind, name),
                            diff: RepoPermissionDiff::Update(actual_permission, permission),
                        },
                    );
                }
            },
            None => {
                diffs.push(
                    RepoPermissionAssignmentDiff {
                        collaborator: collaborator(kind, name),
                        diff: RepoPermissionDiff::Create(permission),
                    },
                );
            },
        }
        claimed.push(name.clone());
        proof {
            let next = all.take(i + 1);
            assert(next.drop_last() =~= all.take(i as int));
            assert(next.last() == all[i as int]);
            assert(diffs.deep_view() =~= before + assignment(kind, name@, permission, found));
            assert(diffs.deep_view() =~= start + assignments(kind, next, there));
            assert(claimed.deep_view() =~= names.push(name@));
            assert(claimed.deep_view() =~= keys(next));
        }
    }
    assert(all.take(wanted.len() as int) =~= all);
}

/// Adds the removal of the given collaborators to `diffs`.
fn push_removals(
    diffs: &mut Vec<RepoPermissionAssignmentDiff>,
    kind: CollaboratorKind,
    left: &Vec<(String, RepoPermission)>,
)
    ensures
        final(diffs).deep_view() == old(diffs).deep_view() + removals(kind, left.deep_view()),
{
    let ghost start = diffs.deep_view();
    let ghost all = removals(kind, left.deep_view());
    assert(start =~= start + all.take(0));
    for i in 0..left.len()
        invariant
            all == removals(kind, left.deep_view()),
            diffs.deep_view() == start + all.take(i as int),
    {
        let ghost before = diffs.deep_view();
        diffs.push(
            RepoPermissionAssignmentDiff {
                collaborator: collaborator(kind, &left[i].0),
                diff: RepoPermissionDiff::Delete(left[i].1),
            },
        );
        proof {
            assert(diffs.deep_view() =~= before.push(all[i as int]));
            assert(diffs.deep_view() =~= start + all.take(i + 1));
        }
    }
    assert(all.take(left.len() as int) =~= all);
}

/// Lists the teams that have access to a repository without being meant to.
pub(crate) fn teams_to_remove(repo: &Repo, teams: &Vec<(String, RepoPermission)>) -> (left: Vec<
    (String, RepoPermission),
>)
    ensures
        left.deep_view() == unclaimed(
            teams.deep_view(),
            keys(team_grants(repo.deep_view())) + bot_accounts(repo.deep_view()),
        ),
{
    let mut claimed = grant_names(&wanted_teams(repo));
    let mut accounts = accounts_of_bots(repo);
    let ghost names = claimed.deep_view();
    let ghost bots = accounts.deep_view();
    claimed.append(&mut accounts);
    assert(claimed.deep_view() =~= names + bots);
    unclaimed_grants(teams, &claimed)
}

impl SyncGitHub {
    /// Compares the wanted access to a repository with the access that there is.
    pub fn diff_permissions(
        &self,
        expected_repo: &Repo,
        teams: &Vec<RepoTeam>,
        collaborators: &Vec<RepoUser>,
    ) -> (diffs: Vec<RepoPermissionAssignmentDiff>)
        ensures
            diffs.deep_view() == permission_diffs(
                expected_repo.deep_view(),
                teams.deep_view(),
                collaborators.deep_view(),
            ),
    {
        let actual_teams = actual_teams(teams);
        let actual_users = actual_users(collaborators);
        let teams_wanted = wanted_teams(expected_repo);
        let users_wanted = wanted_users(expected_repo);
        let mut diffs: Vec<RepoPermissionAssignmentDiff> = Vec::new();
        assert(diffs.deep_view() =~= Seq::empty());
        push_assignments(&mut diffs, CollaboratorKind::Team, &teams_wanted, &actual_teams);
        push_assignments(&mut diffs, CollaboratorKind::User, &users_wanted, &actual_users);
        let teams_left = teams_to_remove(expected_repo, &actual_teams);
        push_removals(&mut diffs, CollaboratorKind::Team, &teams_left);
        let users_left = unclaimed_grants(&actual_users, &grant_names(&users_wanted));
        push_removals(&mut diffs, CollaboratorKind::User, &users_left);
        assert(diffs.deep_view() =~= permission_diffs(
            expected_repo.deep_view(),
            teams.deep_view(),
            collaborators.deep_view(),
        ));
        diffs
    }
}

} // verus!
