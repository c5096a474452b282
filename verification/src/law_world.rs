//! Laws about GitHub as a whole: every team and repository that something is done about ends as
//! it is wanted, and all others stay as they are.
use vstd::prelude::*;

use crate::api::{BranchProtectionView, RepoView, TeamRole, TeamView};
use crate::apply::{member_requests, protection_requests};
use crate::apply_run::start;
use crate::branches::branch_names;
use crate::call::{reads, ReplyView, RequestView};
use crate::diff::{
    BranchProtectionDiffView, CreateRepoDiffView, MemberDiff, RepoDiffView, TeamDiffView,
    UpdateRepoDiffView,
};
use crate::law_apply::{
    after, branch_requests, confirmed, conversation, creation, follows,
    law_apply_makes_the_calls_of_the_diff, repo_conversation, repos_conversation,
    teams_conversation,
};
use crate::law_converge::{
    fresh_repo, is_synchronized, law_creation_converges, law_synchronization_converges,
    requests_of, truthful,
};
use crate::law_diff::{
    difference, listings_there, repo_diffs_there, repo_there, team_diffs_there, team_there,
};
use crate::law_repos::{describes, is_wanted, law_update_converges, RepoState};
use crate::law_sync::{
    access_part, branch_part, branches_part, done, opening, removal_requests, Answers,
};
use crate::law_teams::{
    is_directory, law_edit_gives_the_wanted_properties, law_member_diffs_converge,
    law_new_team_members, listed_roles, perform_edit, same_roles, wanted_roles,
};
use crate::permissions::{stray_teams, stray_users, team_grants, user_grants};
use crate::repos::{repo_diff, ActualRepoView};
use crate::rules::{DEFAULT_DESCRIPTION, DEFAULT_PRIVACY};
use crate::sync::{github_teams, SyncGitHubView};
use crate::sync_run::permission_requests;
use crate::team_data::{self, GitHubTeamView};
use crate::teams::{member_diffs, team_deletions, team_diff, ActualTeamView};
use crate::{law_repos, law_sync, law_teams, sync_run};

verus! {

/// What a team on GitHub is like, as far as it is managed: its properties and the roles of its
/// members, by their names.
pub struct TeamState {
    pub properties: TeamView,
    pub roles: Map<Seq<char>, TeamRole>,
}

/// What GitHub is like, as far as it is managed: its teams and repositories, each under the
/// organization and the name by which calls reach it. A new name that is given to a team is one
/// of its properties; calls reach the team as before.
pub struct World {
    pub teams: Map<(Seq<char>, Seq<char>), TeamState>,
    pub repos: Map<(Seq<char>, Seq<char>), RepoState>,
}

/// The team that a call changes.
pub open spec fn team_address(request: RequestView) -> Option<(Seq<char>, Seq<char>)> {
    match request {
        RequestView::CreateTeam { org, name, .. }
        | RequestView::EditTeam { org, name, .. }
        | RequestView::DeleteTeam { org, name } => Some((org, name)),
        RequestView::SetTeamMembership { org, team, .. }
        | RequestView::RemoveTeamMembership { org, team, .. } => Some((org, team)),
        _ => None,
    }
}

/// The repository that a call changes.
pub open spec fn repo_address(request: RequestView) -> Option<(Seq<char>, Seq<char>)> {
    match request {
        RequestView::CreateRepo { org, name, .. }
        | RequestView::EditRepo { org, name, .. } => Some((org, name)),
        RequestView::UpdateTeamRepoPermissions { org, repo, .. }
        | RequestView::UpdateUserRepoPermissions { org, repo, .. }
        | RequestView::RemoveTeamFromRepo { org, repo, .. }
        | RequestView::RemoveCollaboratorFromRepo { org, repo, .. }
        | RequestView::CreateBranch { org, repo, .. }
        | RequestView::UpdateBranchProtection { org, repo, .. }
        | RequestView::DeleteBranchProtection { org, repo, .. } => Some((org, repo)),
        _ => None,
    }
}

/// What a call about a team does to it.
pub open spec fn perform_team(team: TeamState, request: RequestView) -> TeamState {
    TeamState {
        properties: perform_edit(team.properties, request),
        roles: law_teams::perform(team.roles, request),
    }
}

/// What some calls about a team do to it, one after the other.
pub open spec fn perform_team_all(team: TeamState, requests: Seq<RequestView>) -> TeamState
    decreases requests.len(),
{
    if requests.len() == 0 {
        team
    } else {
        perform_team(perform_team_all(team, requests.drop_last()), requests.last())
    }
}

/// What a call does to the teams: it changes the one that it names, if that is there.
pub open spec fn perform_on_teams(
    teams: Map<(Seq<char>, Seq<char>), TeamState>,
    request: RequestView,
) -> Map<(Seq<char>, Seq<char>), TeamState> {
    match team_address(request) {
        None => teams,
        Some(address) => match request {
            RequestView::CreateTeam { name, description, privacy, .. } => teams.insert(
                address,
                TeamState {
                    properties: TeamView { name, description, privacy },
                    roles: Map::empty(),
                },
            ),
            RequestView::DeleteTeam { .. } => teams.remove(address),
            _ => if teams.contains_key(address) {
                teams.insert(address, perform_team(teams[address], request))
            } else {
                teams
            },
        },
    }
}

/// What a call does to the repositories: it changes the one that it names, if that is there.
/// `born` tells what a repository is like when it was created a moment ago.
pub open spec fn perform_on_repos(
    repos: Map<(Seq<char>, Seq<char>), RepoState>,
    request: RequestView,
    born: spec_fn((Seq<char>, Seq<char>)) -> RepoState,
) -> Map<(Seq<char>, Seq<char>), RepoState> {
    match repo_address(request) {
        None => repos,
        Some(address) => if request is CreateRepo {
            repos.insert(address, law_repos::perform(born(address), request))
        } else if repos.contains_key(address) {
            repos.insert(address, law_repos::perform(repos[address], request))
        } else {
            repos
        },
    }
}

/// What a call does to GitHub.
pub open spec fn perform(
    world: World,
    request: RequestView,
    born: spec_fn((Seq<char>, Seq<char>)) -> RepoState,
) -> World {
    World {
        teams: perform_on_teams(world.teams, request),
        repos: perform_on_repos(world.repos, request, born),
    }
}

/// What some calls do to GitHub, one after the other.
pub open spec fn perform_all(
    world: World,
    requests: Seq<RequestView>,
    born: spec_fn((Seq<char>, Seq<char>)) -> RepoState,
) -> World
    decreases requests.len(),
{
    if requests.len() == 0 {
        world
    } else {
        perform(perform_all(world, requests.drop_last(), born), requests.last(), born)
    }
}

/// The team that a diff is about.
pub open spec fn team_target(diff: TeamDiffView) -> (Seq<char>, Seq<char>) {
    match diff {
        TeamDiffView::Create(create) => (create.org, create.name),
        TeamDiffView::Edit(edit) => (edit.org, edit.name),
        TeamDiffView::Delete(delete) => (delete.org, delete.name),
    }
}

/// The repository that a diff is about.
pub open spec fn repo_target(diff: RepoDiffView) -> (Seq<char>, Seq<char>) {
    match diff {
        RepoDiffView::Create(create) => (create.org, create.name),
        RepoDiffView::Update(update) => (update.org, update.name),
    }
}

/// Where a wanted team is: in its organization, under the name by which it was found, or under the
/// wanted name if it is missing.
pub open spec fn team_home(wanted: GitHubTeamView, actual: Option<ActualTeamView>) -> (
    Seq<char>,
    Seq<char>,
) {
    match actual {
        Some(there) => (wanted.org, there.team.name),
        None => (wanted.org, wanted.name),
    }
}

/// Where a wanted repository is: in its organization, under the name by which it was found, or
/// under the wanted name if it is missing.
pub open spec fn repo_home(wanted: team_data::RepoView, actual: Option<ActualRepoView>) -> (
    Seq<char>,
    Seq<char>,
) {
    match actual {
        Some(there) => (wanted.org, there.repo.name),
        None => (wanted.org, wanted.name),
    }
}

/// The diff of a wanted team is about the team where it is, and the diff of a wanted repository
/// about the repository where it is.
pub proof fn law_diffs_are_about_what_was_compared(
    sync: SyncGitHubView,
    team: GitHubTeamView,
    actual_team: Option<ActualTeamView>,
    repo: team_data::RepoView,
    actual_repo: Option<ActualRepoView>,
)
    ensures
        team_target(team_diff(sync, team, actual_team)) == team_home(team, actual_team),
        repo_target(repo_diff(repo, actual_repo)) == repo_home(repo, actual_repo),
{
}

/// Whether what was read of a team is the truth about it, and `names` is a directory of the
/// users in question.
pub open spec fn team_told(
    world: World,
    names: Map<usize, Seq<char>>,
    sync: SyncGitHubView,
    wanted: GitHubTeamView,
    actual: Option<ActualTeamView>,
) -> bool {
    match actual {
        None => is_directory(names, sync, wanted, Seq::empty()),
        Some(there) => {
            let address = team_home(wanted, actual);
            &&& is_directory(names, sync, wanted, there.members)
            &&& world.teams.contains_key(address)
            &&& world.teams[address].properties == there.team
            &&& same_roles(names, world.teams[address].roles, listed_roles(there.members))
        },
    }
}

/// Whether a team is as it is wanted: name, description, privacy, and exactly the wanted
/// members, each in its role.
pub open spec fn team_is_wanted(
    names: Map<usize, Seq<char>>,
    sync: SyncGitHubView,
    wanted: GitHubTeamView,
    state: TeamState,
) -> bool {
    &&& state.properties == TeamView {
        name: wanted.name,
        description: DEFAULT_DESCRIPTION@,
        privacy: DEFAULT_PRIVACY,
    }
    &&& same_roles(names, state.roles, wanted_roles(sync, wanted))
}

/// What a repository is like before its diff is carried out; one that is missing, when it was
/// created a moment ago.
pub open spec fn repo_before(
    world: World,
    wanted: team_data::RepoView,
    actual: Option<ActualRepoView>,
    made: (RepoView, Seq<char>),
) -> RepoState {
    match actual {
        None => fresh_repo(made.0, made.1),
        Some(_) => world.repos[repo_home(wanted, actual)],
    }
}

/// Whether what was read of a repository is the truth about it; of one that is missing, whether
/// it will have nothing but a default branch, at the commit that is told of it.
pub open spec fn repo_told(
    world: World,
    wanted: team_data::RepoView,
    actual: Option<ActualRepoView>,
    made: (RepoView, Seq<char>),
    born: spec_fn((Seq<char>, Seq<char>)) -> RepoState,
) -> bool {
    let address = repo_home(wanted, actual);
    match actual {
        None => born(address) == fresh_repo(made.0, made.1),
        Some(there) => {
            &&& branch_names(wanted).no_duplicates()
            &&& world.repos.contains_key(address)
            &&& describes(world.repos[address], wanted, there)
        },
    }
}

proof fn lemma_perform_append(
    world: World,
    a: Seq<RequestView>,
    b: Seq<RequestView>,
    born: spec_fn((Seq<char>, Seq<char>)) -> RepoState,
)
    ensures
        perform_all(world, a + b, born) == perform_all(perform_all(world, a, born), b, born),
    decreases b.len(),
{
    if b.len() == 0 {
        assert(a + b =~= a);
    } else {
        assert((a + b).drop_last() =~= a + b.drop_last());
        lemma_perform_append(world, a, b.drop_last(), born);
    }
}

proof fn lemma_requests_append(
    a: Seq<(RequestView, ReplyView)>,
    b: Seq<(RequestView, ReplyView)>,
)
    ensures
        requests_of(a + b) == requests_of(a) + requests_of(b),
{
    assert(requests_of(a + b) =~= requests_of(a) + requests_of(b));
}

proof fn lemma_requests_of_confirmed(
    requests: Seq<RequestView>,
    updated: spec_fn(RequestView) -> bool,
)
    ensures
        requests_of(confirmed(requests, updated)) == requests,
{
    assert(requests_of(confirmed(requests, updated)) =~= requests);
}

/// Whether a call changes at most one repository that is there, and nothing else.
spec fn only_repo(request: RequestView, address: (Seq<char>, Seq<char>)) -> bool {
    &&& team_address(request) is None
    &&& repo_address(request) is None || repo_address(request) == Some(address)
    &&& !(request is CreateRepo)
}

/// Whether a call changes at most one team that is there, and nothing else.
spec fn only_team(request: RequestView, address: (Seq<char>, Seq<char>)) -> bool {
    &&& repo_address(request) is None
    &&& team_address(request) is None || team_address(request) == Some(address)
    &&& !(request is CreateTeam)
    &&& !(request is DeleteTeam)
}

/// Calls that name one repository change nothing but it.
proof fn lemma_only_repo(
    world: World,
    requests: Seq<RequestView>,
    address: (Seq<char>, Seq<char>),
    born: spec_fn((Seq<char>, Seq<char>)) -> RepoState,
)
    requires
        world.repos.contains_key(address),
        forall|i: int| 0 <= i < requests.len() ==> only_repo(#[trigger] requests[i], address),
    ensures
        perform_all(world, requests, born) == (World {
            repos: world.repos.insert(
                address,
                law_repos::perform_all(world.repos[address], requests),
            ),
            ..world
        }),
    decreases requests.len(),
{
    if requests.len() == 0 {
        assert(world.repos.insert(address, world.repos[address]) =~= world.repos);
    } else {
        let earlier = requests.drop_last();
        let last = requests.last();
        assert(last == requests[requests.len() - 1]);
        assert forall|i: int| 0 <= i < earlier.len() implies only_repo(
            #[trigger] earlier[i],
            address,
        ) by {
            assert(earlier[i] == requests[i]);
        }
        lemma_only_repo(world, earlier, address, born);
        let middle = perform_all(world, earlier, born);
        let state = law_repos::perform_all(world.repos[address], earlier);
        assert(middle.repos[address] == state);
        if repo_address(last) is None {
            assert(law_repos::perform(state, last) == state);
        }
        assert(perform(middle, last, born).repos =~= world.repos.insert(
            address,
            law_repos::perform(state, last),
        ));
    }
}

/// Calls that read, then create a repository, and then name nothing but it, change nothing else.
proof fn lemma_creating_repo(
    world: World,
    reading: Seq<RequestView>,
    make: RequestView,
    rest: Seq<RequestView>,
    address: (Seq<char>, Seq<char>),
    born: spec_fn((Seq<char>, Seq<char>)) -> RepoState,
)
    requires
        make is CreateRepo,
        repo_address(make) == Some(address),
        forall|i: int| 0 <= i < reading.len() ==> reads(#[trigger] reading[i]),
        forall|i: int| 0 <= i < rest.len() ==> only_repo(#[trigger] rest[i], address),
    ensures
        perform_all(world, reading + seq![make] + rest, born) == (World {
            repos: world.repos.insert(
                address,
                law_repos::perform_all(born(address), reading + seq![make] + rest),
            ),
            ..world
        }),
{
    lemma_perform_append(world, reading + seq![make], rest, born);
    lemma_perform_append(world, reading, seq![make], born);
    law_repos::lemma_perform_append(born(address), reading + seq![make], rest);
    law_repos::lemma_perform_append(born(address), reading, seq![make]);
    lemma_reading(world, reading, born(address), born);
    reveal_with_fuel(perform_all, 2);
    reveal_with_fuel(law_repos::perform_all, 2);
    assert(seq![make].drop_last() =~= Seq::empty());
    let made = perform(world, make, born);
    assert(perform_all(world, seq![make], born) == made);
    assert(law_repos::perform_all(born(address), seq![make]) == law_repos::perform(
        born(address),
        make,
    ));
    lemma_only_repo(made, rest, address, born);
    assert(made.repos.insert(
        address,
        law_repos::perform_all(made.repos[address], rest),
    ) =~= world.repos.insert(
        address,
        law_repos::perform_all(born(address), reading + seq![make] + rest),
    ));
}

/// Calls that read change nothing.
proof fn lemma_reading(
    world: World,
    reading: Seq<RequestView>,
    state: RepoState,
    born: spec_fn((Seq<char>, Seq<char>)) -> RepoState,
)
    requires
        forall|i: int| 0 <= i < reading.len() ==> reads(#[trigger] reading[i]),
    ensures
        perform_all(world, reading, born) == world,
        law_repos::perform_all(state, reading) == state,
    decreases reading.len(),
{
    if reading.len() > 0 {
        let earlier = reading.drop_last();
        assert(reading.last() == reading[reading.len() - 1]);
        assert forall|i: int| 0 <= i < earlier.len() implies reads(
            #[trigger] earlier[i],
        ) by {
            assert(earlier[i] == reading[i]);
        }
        lemma_reading(world, earlier, state, born);
    }
}

/// Calls that name one team change nothing but it.
proof fn lemma_only_team(
    world: World,
    requests: Seq<RequestView>,
    address: (Seq<char>, Seq<char>),
    born: spec_fn((Seq<char>, Seq<char>)) -> RepoState,
)
    requires
        world.teams.contains_key(address),
        forall|i: int| 0 <= i < requests.len() ==> only_team(#[trigger] requests[i], address),
    ensures
        perform_all(world, requests, born) == (World {
            teams: world.teams.insert(address, perform_team_all(world.teams[address], requests)),
            ..world
        }),
    decreases requests.len(),
{
    if requests.len() == 0 {
        assert(world.teams.insert(address, world.teams[address]) =~= world.teams);
    } else {
        let earlier = requests.drop_last();
        let last = requests.last();
        assert(last == requests[requests.len() - 1]);
        assert forall|i: int| 0 <= i < earlier.len() implies only_team(
            #[trigger] earlier[i],
            address,
        ) by {
            assert(earlier[i] == requests[i]);
        }
        lemma_only_team(world, earlier, address, born);
        let middle = perform_all(world, earlier, born);
        let state = perform_team_all(world.teams[address], earlier);
        assert(middle.teams[address] == state);
        if team_address(last) is None {
            assert(perform_team(state, last) == state);
        }
        assert(perform(middle, last, born).teams =~= world.teams.insert(
            address,
            perform_team(state, last),
        ));
    }
}

/// The properties and the roles of a team change by themselves.
proof fn lemma_team_parts(team: TeamState, requests: Seq<RequestView>)
    ensures
        perform_team_all(team, requests).roles == law_teams::perform_all(team.roles, requests),
        (forall|i: int| 0 <= i < requests.len() ==> !(#[trigger] requests[i] is EditTeam))
            ==> perform_team_all(team, requests).properties == team.properties,
    decreases requests.len(),
{
    if requests.len() > 0 {
        let earlier = requests.drop_last();
        assert(requests.last() == requests[requests.len() - 1]);
        assert(forall|i: int| 0 <= i < earlier.len() ==> earlier[i] == requests[i]);
        lemma_team_parts(team, earlier);
        if forall|i: int| 0 <= i < requests.len() ==> !(#[trigger] requests[i] is EditTeam) {
            assert(forall|i: int| 0 <= i < earlier.len() ==> !(#[trigger] earlier[i] is EditTeam));
        }
    }
}

/// The calls for the members of a team name nothing but it, and edit nothing.
proof fn lemma_member_requests(
    org: Seq<char>,
    team: Seq<char>,
    diffs: Seq<(Seq<char>, MemberDiff)>,
)
    ensures
        forall|i: int|
            0 <= i < member_requests(org, team, diffs).len() ==> {
                let request = #[trigger] member_requests(org, team, diffs)[i];
                only_team(request, (org, team)) && !(request is EditTeam)
            },
    decreases diffs.len(),
{
    if diffs.len() > 0 {
        lemma_member_requests(org, team, diffs.drop_last());
        let all = member_requests(org, team, diffs);
        let earlier = member_requests(org, team, diffs.drop_last());
        assert forall|i: int| 0 <= i < all.len() implies only_team(#[trigger] all[i], (org, team))
            && !(all[i] is EditTeam) by {
            if i < earlier.len() {
                assert(all[i] == earlier[i]);
            }
        }
    }
}

/// Carrying out the diff of a wanted team makes it as it is wanted and changes nothing else.
proof fn lemma_team(
    world: World,
    names: Map<usize, Seq<char>>,
    sync: SyncGitHubView,
    wanted: GitHubTeamView,
    actual: Option<ActualTeamView>,
    born: spec_fn((Seq<char>, Seq<char>)) -> RepoState,
)
    requires
        team_told(world, names, sync, wanted, actual),
    ensures
        ({
            let diff = team_diff(sync, wanted, actual);
            let ended = perform_all(world, diff.requests(), born);
            let address = team_target(diff);
            &&& ended.repos == world.repos
            &&& ended.teams == world.teams.insert(address, ended.teams[address])
            &&& team_is_wanted(names, sync, wanted, ended.teams[address])
        }),
{
    let diff = team_diff(sync, wanted, actual);
    let requests = diff.requests();
    let address = team_target(diff);
    let ended = perform_all(world, requests, born);
    let first = requests[0];
    let rest = requests.drop_first();
    assert(requests =~= seq![first] + rest);
    lemma_perform_append(world, seq![first], rest, born);
    reveal_with_fuel(perform_all, 2);
    assert(seq![first].drop_last() =~= Seq::empty());
    let begun = perform(world, first, born);
    assert(perform_all(world, seq![first], born) == begun);
    match actual {
        None => {
            let nobody = Map::<Seq<char>, TeamRole>::empty();
            assert forall|i: int| 0 <= i < rest.len() implies only_team(
                #[trigger] rest[i],
                address,
            ) && !(rest[i] is EditTeam) by {
                assert(rest[i] == requests[i + 1]);
            }
            lemma_only_team(begun, rest, address, born);
            lemma_team_parts(begun.teams[address], rest);
            law_new_team_members(names, sync, wanted);
            law_teams::lemma_perform_append(nobody, seq![first], rest);
            reveal_with_fuel(law_teams::perform_all, 2);
            assert(law_teams::perform_all(nobody, seq![first]) == nobody);
        },
        Some(there) => {
            let members = member_requests(
                wanted.org,
                there.team.name,
                member_diffs(sync, wanted, there.members),
            );
            assert(rest =~= members);
            lemma_member_requests(
                wanted.org,
                there.team.name,
                member_diffs(sync, wanted, there.members),
            );
            law_edit_gives_the_wanted_properties(sync, wanted, there);
            assert(begun.teams[address] == perform_team(world.teams[address], first));
            lemma_only_team(begun, rest, address, born);
            lemma_team_parts(begun.teams[address], rest);
            law_member_diffs_converge(
                world.teams[address].roles,
                names,
                sync,
                wanted,
                there.members,
                there.team.name,
            );
        },
    }
    assert(ended.teams =~= world.teams.insert(address, ended.teams[address]));
}

/// The diffs of all teams, and those of the deletions.
spec fn all_team_diffs(
    github: spec_fn(RequestView) -> ReplyView,
    sync: SyncGitHubView,
) -> Seq<TeamDiffView> {
    difference(github, sync).team_diffs
}

proof fn lemma_teams(
    world: World,
    names: Map<usize, Seq<char>>,
    github: spec_fn(RequestView) -> ReplyView,
    sync: SyncGitHubView,
    updated: spec_fn(RequestView) -> bool,
    born: spec_fn((Seq<char>, Seq<char>)) -> RepoState,
    count: int,
)
    requires
        0 <= count <= all_team_diffs(github, sync).len(),
        all_team_diffs(github, sync).map_values(
            |diff: TeamDiffView| team_target(diff),
        ).no_duplicates(),
        forall|i: int|
            0 <= i < github_teams(sync.teams).len() ==> team_told(
                world,
                names,
                sync,
                #[trigger] github_teams(sync.teams)[i],
                team_there(github, github_teams(sync.teams)[i]),
            ),
    ensures
        ({
            let all = all_team_diffs(github, sync);
            let teams = github_teams(sync.teams);
            let ended = perform_all(
                world,
                requests_of(teams_conversation(all.take(count), updated)),
                born,
            );
            &&& ended.repos == world.repos
            &&& forall|i: int|
                0 <= i < count && i < teams.len() ==> {
                    let address = team_target(#[trigger] all[i]);
                    &&& ended.teams.contains_key(address)
                    &&& team_is_wanted(names, sync, teams[i], ended.teams[address])
                }
            &&& forall|i: int|
                teams.len() <= i < count ==> !ended.teams.contains_key(
                    team_target(#[trigger] all[i]),
                )
            &&& forall|address: (Seq<char>, Seq<char>)|
                (forall|i: int| 0 <= i < count ==> team_target(#[trigger] all[i]) != address) ==> {
                    &&& #[trigger] ended.teams.contains_key(address)
                        <==> world.teams.contains_key(address)
                    &&& ended.teams[address] == world.teams[address]
                }
        }),
    decreases count,
{
    let all = all_team_diffs(github, sync);
    let teams = github_teams(sync.teams);
    let first = team_diffs_there(github, sync, teams);
    let ended = perform_all(
        world,
        requests_of(teams_conversation(all.take(count), updated)),
        born,
    );
    if count == 0 {
        assert(requests_of(teams_conversation(all.take(0), updated)) =~= Seq::empty());
    } else {
        let index = count - 1;
        let diff = all[index];
        let address = team_target(diff);
        lemma_teams(world, names, github, sync, updated, born, index);
        let earlier = teams_conversation(all.take(index), updated);
        let middle = perform_all(world, requests_of(earlier), born);
        assert(all.take(count).drop_last() =~= all.take(index));
        lemma_requests_append(earlier, confirmed(diff.requests(), updated));
        lemma_requests_of_confirmed(diff.requests(), updated);
        lemma_perform_append(world, requests_of(earlier), diff.requests(), born);
        assert(ended == perform_all(middle, diff.requests(), born));
        let targets = all.map_values(|diff: TeamDiffView| team_target(diff));
        assert forall|i: int| 0 <= i < index implies team_target(#[trigger] all[i])
            != address by {
            assert(targets[i] != targets[index]);
        }
        assert(middle.teams.contains_key(address) <==> world.teams.contains_key(address));
        if index < teams.len() {
            assert(all[index] == first[index]);
            let there = team_there(github, teams[index]);
            assert(team_told(world, names, sync, teams[index], there));
            assert(team_told(middle, names, sync, teams[index], there));
            lemma_team(middle, names, sync, teams[index], there, born);
        } else {
            let deletions = team_deletions(sync, listings_there(github, teams));
            assert(all[index] == deletions[index - teams.len()]);
            assert(diff is Delete);
            let request = RequestView::DeleteTeam { org: address.0, name: address.1 };
            reveal_with_fuel(perform_all, 2);
            assert(diff.requests() =~= seq![request]);
            assert(diff.requests().drop_last() =~= Seq::empty());
            assert(ended == perform(middle, request, born));
            assert(ended.teams == middle.teams.remove(address));
        }
        assert forall|i: int| 0 <= i < count && i < teams.len() implies {
            let address = team_target(#[trigger] all[i]);
            &&& ended.teams.contains_key(address)
            &&& team_is_wanted(names, sync, teams[i], ended.teams[address])
        } by {
            if i < index {
                assert(team_target(all[i]) != address);
            }
        }
        assert forall|i: int| teams.len() <= i < count implies !ended.teams.contains_key(
            team_target(#[trigger] all[i]),
        ) by {
            if i < index {
                assert(team_target(all[i]) != address);
            }
        }
        assert forall|other: (Seq<char>, Seq<char>)|
            (forall|i: int| 0 <= i < count ==> team_target(#[trigger] all[i])
                != other) implies {
            &&& #[trigger] ended.teams.contains_key(other) <==> world.teams.contains_key(other)
            &&& ended.teams[other] == world.teams[other]
        } by {
            assert(team_target(all[index]) != other);
            assert(forall|i: int| 0 <= i < index ==> team_target(#[trigger] all[i]) != other);
            assert(middle.teams.contains_key(other) <==> world.teams.contains_key(other));
        }
    }
}

proof fn lemma_protection_requests(
    org: Seq<char>,
    repo: Seq<char>,
    diffs: Seq<BranchProtectionDiffView>,
)
    ensures
        forall|i: int|
            0 <= i < protection_requests(org, repo, diffs).len() ==> only_repo(
                #[trigger] protection_requests(org, repo, diffs)[i],
                (org, repo),
            ),
    decreases diffs.len(),
{
    if diffs.len() > 0 {
        lemma_protection_requests(org, repo, diffs.drop_last());
        let all = protection_requests(org, repo, diffs);
        let earlier = protection_requests(org, repo, diffs.drop_last());
        assert forall|i: int| 0 <= i < all.len() implies only_repo(
            #[trigger] all[i],
            (org, repo),
        ) by {
            if i < earlier.len() {
                assert(all[i] == earlier[i]);
            } else {
                assert(all[i] == diffs.last().requests(org, repo)[i - earlier.len()]);
            }
        }
    }
}

/// The calls of an update name nothing but its repository.
proof fn lemma_update_requests(update: UpdateRepoDiffView)
    ensures
        forall|i: int|
            0 <= i < update.requests().len() ==> only_repo(
                #[trigger] update.requests()[i],
                (update.org, update.name),
            ),
{
    lemma_protection_requests(update.org, update.name, update.branch_protection_diffs);
    let all = update.requests();
    let protections = protection_requests(
        update.org,
        update.name,
        update.branch_protection_diffs,
    );
    let first = all.len() - protections.len();
    assert forall|i: int| 0 <= i < all.len() implies only_repo(
        #[trigger] all[i],
        (update.org, update.name),
    ) by {
        if i >= first {
            assert(all[i] == protections[i - first]);
        }
    }
}

proof fn lemma_branch_requests(
    org: Seq<char>,
    repo: Seq<char>,
    protections: Seq<(Seq<char>, BranchProtectionView)>,
    commit: Seq<char>,
)
    ensures
        forall|i: int|
            0 <= i < branch_requests(org, repo, protections, commit).len() ==> only_repo(
                #[trigger] branch_requests(org, repo, protections, commit)[i],
                (org, repo),
            ),
    decreases protections.len(),
{
    if protections.len() > 0 {
        lemma_branch_requests(org, repo, protections.drop_last(), commit);
        let all = branch_requests(org, repo, protections, commit);
        let earlier = branch_requests(org, repo, protections.drop_last(), commit);
        assert forall|i: int| 0 <= i < all.len() implies only_repo(
            #[trigger] all[i],
            (org, repo),
        ) by {
            if i < earlier.len() {
                assert(all[i] == earlier[i]);
            }
        }
    }
}

/// The calls of a creation create its repository and then name nothing but it.
proof fn lemma_creation_requests(
    create: CreateRepoDiffView,
    repo: RepoView,
    head: Seq<char>,
    updated: spec_fn(RequestView) -> bool,
)
    ensures
        ({
            let requests = requests_of(creation(create, repo, head, updated));
            &&& requests.len() > 0
            &&& requests[0] is CreateRepo
            &&& repo_address(requests[0]) == Some((create.org, create.name))
            &&& forall|i: int|
                1 <= i < requests.len() ==> only_repo(
                    #[trigger] requests[i],
                    (create.org, create.name),
                )
        }),
{
    let requests = requests_of(creation(create, repo, head, updated));
    let access = create.permission_requests();
    let branches = branch_requests(create.org, create.name, create.branch_protections, head);
    let make = RequestView::CreateRepo {
        org: create.org,
        name: create.name,
        description: create.description,
    };
    let ask = RequestView::Branch {
        org: create.org,
        repo: create.name,
        branch: repo.default_branch,
    };
    assert(requests =~= seq![make] + access + seq![ask] + branches);
    lemma_branch_requests(create.org, create.name, create.branch_protections, head);
    assert forall|i: int| 1 <= i < requests.len() implies only_repo(
        #[trigger] requests[i],
        (create.org, create.name),
    ) by {
        if i < 1 + access.len() {
            assert(requests[i] == access[i - 1]);
        } else if i == 1 + access.len() {
            assert(requests[i] == ask);
        } else {
            assert(requests[i] == branches[i - 2 - access.len()]);
        }
    }
}

/// Carrying out the diff of a repository makes it as it is wanted and changes nothing else.
proof fn lemma_repo(
    world: World,
    wanted: team_data::RepoView,
    actual: Option<ActualRepoView>,
    made: (RepoView, Seq<char>),
    updated: spec_fn(RequestView) -> bool,
    born: spec_fn((Seq<char>, Seq<char>)) -> RepoState,
)
    requires
        repo_told(world, wanted, actual, made, born),
    ensures
        ({
            let diff = repo_diff(wanted, actual);
            let ended = perform_all(
                world,
                requests_of(repo_conversation(diff, made.0, made.1, updated)),
                born,
            );
            let address = repo_target(diff);
            &&& ended.teams == world.teams
            &&& ended.repos == world.repos.insert(address, ended.repos[address])
            &&& is_wanted(wanted, repo_before(world, wanted, actual, made), ended.repos[address])
        }),
{
    let diff = repo_diff(wanted, actual);
    let address = repo_target(diff);
    let requests = requests_of(repo_conversation(diff, made.0, made.1, updated));
    let ended = perform_all(world, requests, born);
    match actual {
        None => {
            let create = diff->Create_0;
            lemma_creation_requests(create, made.0, made.1, updated);
            let rest = requests.drop_first();
            let reading = Seq::<RequestView>::empty();
            assert(requests =~= reading + seq![requests[0]] + rest);
            assert forall|i: int| 0 <= i < rest.len() implies only_repo(
                #[trigger] rest[i],
                address,
            ) by {
                assert(rest[i] == requests[i + 1]);
            }
            lemma_creating_repo(world, reading, requests[0], rest, address, born);
            law_creation_converges(wanted, made.0, made.1, updated);
        },
        Some(there) => {
            let update = diff->Update_0;
            lemma_requests_of_confirmed(update.requests(), updated);
            lemma_update_requests(update);
            lemma_only_repo(world, requests, address, born);
            law_update_converges(world.repos[address], wanted, there);
        },
    }
    assert(ended.repos =~= world.repos.insert(address, ended.repos[address]));
}

proof fn lemma_repos(
    world: World,
    github: spec_fn(RequestView) -> ReplyView,
    repos: Seq<team_data::RepoView>,
    created: spec_fn(int) -> (RepoView, Seq<char>),
    updated: spec_fn(RequestView) -> bool,
    born: spec_fn((Seq<char>, Seq<char>)) -> RepoState,
    count: int,
)
    requires
        0 <= count <= repos.len(),
        repo_diffs_there(github, repos).map_values(
            |diff: RepoDiffView| repo_target(diff),
        ).no_duplicates(),
        forall|i: int|
            0 <= i < repos.len() ==> repo_told(
                world,
                #[trigger] repos[i],
                repo_there(github, repos[i]),
                created(i),
                born,
            ),
    ensures
        ({
            let all = repo_diffs_there(github, repos);
            let ended = perform_all(
                world,
                requests_of(repos_conversation(all.take(count), created, updated)),
                born,
            );
            &&& ended.teams == world.teams
            &&& forall|i: int|
                0 <= i < count ==> {
                    let address = repo_target(#[trigger] all[i]);
                    &&& ended.repos.contains_key(address)
                    &&& is_wanted(
                        repos[i],
                        repo_before(world, repos[i], repo_there(github, repos[i]), created(i)),
                        ended.repos[address],
                    )
                }
            &&& forall|address: (Seq<char>, Seq<char>)|
                (forall|i: int| 0 <= i < count ==> repo_target(#[trigger] all[i]) != address) ==> {
                    &&& #[trigger] ended.repos.contains_key(address)
                        <==> world.repos.contains_key(address)
                    &&& ended.repos[address] == world.repos[address]
                }
        }),
    decreases count,
{
    let all = repo_diffs_there(github, repos);
    let ended = perform_all(
        world,
        requests_of(repos_conversation(all.take(count), created, updated)),
        born,
    );
    if count == 0 {
        assert(requests_of(repos_conversation(all.take(0), created, updated)) =~= Seq::empty());
    } else {
        let index = count - 1;
        let diff = all[index];
        let address = repo_target(diff);
        let there = repo_there(github, repos[index]);
        let made = created(index);
        lemma_repos(world, github, repos, created, updated, born, index);
        let earlier = repos_conversation(all.take(index), created, updated);
        let last = repo_conversation(diff, made.0, made.1, updated);
        let middle = perform_all(world, requests_of(earlier), born);
        assert(all.take(count).drop_last() =~= all.take(index));
        lemma_requests_append(earlier, last);
        lemma_perform_append(world, requests_of(earlier), requests_of(last), born);
        assert(ended == perform_all(middle, requests_of(last), born));
        let targets = all.map_values(|diff: RepoDiffView| repo_target(diff));
        assert forall|i: int| 0 <= i < index implies repo_target(#[trigger] all[i])
            != address by {
            assert(targets[i] != targets[index]);
        }
        assert(middle.repos.contains_key(address) <==> world.repos.contains_key(address));
        assert(repo_told(world, repos[index], there, made, born));
        assert(repo_told(middle, repos[index], there, made, born));
        lemma_repo(middle, repos[index], there, made, updated, born);
        assert forall|i: int| 0 <= i < count implies {
            let address = repo_target(#[trigger] all[i]);
            &&& ended.repos.contains_key(address)
            &&& is_wanted(
                repos[i],
                repo_before(world, repos[i], repo_there(github, repos[i]), created(i)),
                ended.repos[address],
            )
        } by {
            if i < index {
                assert(repo_target(all[i]) != address);
            }
        }
        assert forall|other: (Seq<char>, Seq<char>)|
            (forall|i: int| 0 <= i < count ==> repo_target(#[trigger] all[i])
                != other) implies {
            &&& #[trigger] ended.repos.contains_key(other) <==> world.repos.contains_key(other)
            &&& ended.repos[other] == world.repos[other]
        } by {
            assert(repo_target(all[index]) != other);
            assert(forall|i: int| 0 <= i < index ==> repo_target(#[trigger] all[i]) != other);
            assert(middle.repos.contains_key(other) <==> world.repos.contains_key(other));
        }
    }
}

/// Whether the difference between the wanted state and GitHub was read off the truth: what was
/// read of each team and repository is the truth about it, `names` is a directory of the users
/// in question, no two diffs are about the same team or the same repository, no repository that
/// is there names a branch twice, and each repository that will be created has nothing but a
/// default branch at first.
pub open spec fn told_truly(
    world: World,
    names: Map<usize, Seq<char>>,
    github: spec_fn(RequestView) -> ReplyView,
    sync: SyncGitHubView,
    created: spec_fn(int) -> (RepoView, Seq<char>),
    born: spec_fn((Seq<char>, Seq<char>)) -> RepoState,
) -> bool {
    let teams = github_teams(sync.teams);
    let diff = difference(github, sync);
    &&& diff.team_diffs.map_values(|diff: TeamDiffView| team_target(diff)).no_duplicates()
    &&& diff.repo_diffs.map_values(|diff: RepoDiffView| repo_target(diff)).no_duplicates()
    &&& forall|i: int|
        0 <= i < teams.len() ==> team_told(
            world,
            names,
            sync,
            #[trigger] teams[i],
            team_there(github, teams[i]),
        )
    &&& forall|i: int|
        0 <= i < sync.repos.len() ==> repo_told(
            world,
            #[trigger] sync.repos[i],
            repo_there(github, sync.repos[i]),
            created(i),
            born,
        )
}

/// Carrying out the difference between the wanted state and GitHub makes the whole of GitHub as
/// it is wanted: every wanted team and every wanted repository is there and is as it is wanted,
/// every team that is to be deleted is gone, and every other team and repository is as it was;
/// provided that the difference was read off the truth, in the sense of `told_truly`. The calls
/// that do so are exactly those that carrying out the diff makes.
pub proof fn law_the_difference_makes_github_as_wanted(
    world: World,
    names: Map<usize, Seq<char>>,
    github: spec_fn(RequestView) -> ReplyView,
    sync: SyncGitHubView,
    created: spec_fn(int) -> (RepoView, Seq<char>),
    updated: spec_fn(RequestView) -> bool,
    born: spec_fn((Seq<char>, Seq<char>)) -> RepoState,
)
    requires
        told_truly(world, names, github, sync, created, born),
    ensures
        follows(
            start(difference(github, sync)),
            conversation(difference(github, sync), created, updated),
        ),
        after(
            start(difference(github, sync)),
            conversation(difference(github, sync), created, updated),
        ).pending() is None,
        ({
            let teams = github_teams(sync.teams);
            let diff = difference(github, sync);
            let ended = perform_all(
                world,
                requests_of(conversation(diff, created, updated)),
                born,
            );
            &&& forall|i: int|
                0 <= i < teams.len() ==> {
                    let address = team_home(#[trigger] teams[i], team_there(github, teams[i]));
                    &&& ended.teams.contains_key(address)
                    &&& team_is_wanted(names, sync, teams[i], ended.teams[address])
                }
            &&& forall|i: int|
                teams.len() <= i < diff.team_diffs.len() ==> !ended.teams.contains_key(
                    team_target(#[trigger] diff.team_diffs[i]),
                )
            &&& forall|address: (Seq<char>, Seq<char>)|
                (forall|i: int|
                    0 <= i < teams.len() ==> team_home(
                        #[trigger] teams[i],
                        team_there(github, teams[i]),
                    ) != address) && (forall|i: int|
                    teams.len() <= i < diff.team_diffs.len() ==> team_target(
                        #[trigger] diff.team_diffs[i],
                    ) != address) ==> {
                    &&& #[trigger] ended.teams.contains_key(address)
                        <==> world.teams.contains_key(address)
                    &&& ended.teams[address] == world.teams[address]
                }
            &&& forall|i: int|
                0 <= i < sync.repos.len() ==> {
                    let address = repo_home(
                        #[trigger] sync.repos[i],
                        repo_there(github, sync.repos[i]),
                    );
                    &&& ended.repos.contains_key(address)
                    &&& is_wanted(
                        sync.repos[i],
                        repo_before(
                            world,
                            sync.repos[i],
                            repo_there(github, sync.repos[i]),
                            created(i),
                        ),
                        ended.repos[address],
                    )
                }
            &&& forall|address: (Seq<char>, Seq<char>)|
                (forall|i: int|
                    0 <= i < sync.repos.len() ==> repo_home(
                        #[trigger] sync.repos[i],
                        repo_there(github, sync.repos[i]),
                    ) != address) ==> {
                    &&& #[trigger] ended.repos.contains_key(address)
                        <==> world.repos.contains_key(address)
                    &&& ended.repos[address] == world.repos[address]
                }
        }),
{
    let teams = github_teams(sync.teams);
    let diff = difference(github, sync);
    law_apply_makes_the_calls_of_the_diff(diff, created, updated);
    let first = teams_conversation(diff.team_diffs, updated);
    let second = repos_conversation(diff.repo_diffs, created, updated);
    lemma_requests_append(first, second);
    lemma_perform_append(world, requests_of(first), requests_of(second), born);
    let all_teams = diff.team_diffs.len() as int;
    let all_repos = diff.repo_diffs.len() as int;
    assert(diff.team_diffs.take(all_teams) =~= diff.team_diffs);
    assert(diff.repo_diffs.take(all_repos) =~= diff.repo_diffs);
    lemma_teams(world, names, github, sync, updated, born, all_teams);
    let middle = perform_all(world, requests_of(first), born);
    assert forall|i: int| 0 <= i < sync.repos.len() implies repo_told(
        middle,
        #[trigger] sync.repos[i],
        repo_there(github, sync.repos[i]),
        created(i),
        born,
    ) by {
        assert(repo_told(
            world,
            sync.repos[i],
            repo_there(github, sync.repos[i]),
            created(i),
            born,
        ));
    }
    lemma_repos(middle, github, sync.repos, created, updated, born, all_repos);
    let ended = perform_all(middle, requests_of(second), born);
    assert forall|i: int| 0 <= i < teams.len() implies team_home(
        #[trigger] teams[i],
        team_there(github, teams[i]),
    ) == team_target(diff.team_diffs[i]) by {
    }
    assert forall|i: int| 0 <= i < sync.repos.len() implies repo_home(
        #[trigger] sync.repos[i],
        repo_there(github, sync.repos[i]),
    ) == repo_target(diff.repo_diffs[i]) by {
    }
    assert forall|address: (Seq<char>, Seq<char>)|
        (forall|i: int|
            0 <= i < teams.len() ==> team_home(
                #[trigger] teams[i],
                team_there(github, teams[i]),
            ) != address) && (forall|i: int|
            teams.len() <= i < diff.team_diffs.len() ==> team_target(#[trigger] diff.team_diffs[i])
                != address) implies {
        &&& #[trigger] ended.teams.contains_key(address) <==> world.teams.contains_key(address)
        &&& ended.teams[address] == world.teams[address]
    } by {
        assert forall|i: int| 0 <= i < diff.team_diffs.len() implies team_target(
            #[trigger] diff.team_diffs[i],
        ) != address by {
            if i < teams.len() {
                assert(team_home(teams[i], team_there(github, teams[i])) != address);
            }
        }
        assert(middle.teams.contains_key(address) <==> world.teams.contains_key(address));
    }
    assert forall|address: (Seq<char>, Seq<char>)|
        (forall|i: int|
            0 <= i < sync.repos.len() ==> repo_home(
                #[trigger] sync.repos[i],
                repo_there(github, sync.repos[i]),
            ) != address) implies {
        &&& #[trigger] ended.repos.contains_key(address) <==> world.repos.contains_key(address)
        &&& ended.repos[address] == world.repos[address]
    } by {
        assert forall|i: int| 0 <= i < diff.repo_diffs.len() implies repo_target(
            #[trigger] diff.repo_diffs[i],
        ) != address by {
            assert(repo_home(sync.repos[i], repo_there(github, sync.repos[i])) != address);
        }
        assert(ended.repos.contains_key(address) <==> middle.repos.contains_key(address));
    }
}

/// The repository that a synchronization is about.
pub open spec fn address_of(wanted: team_data::RepoView) -> (Seq<char>, Seq<char>) {
    (wanted.org, wanted.name)
}

/// What a repository is like before it is synchronized; one that is missing, when it was created
/// a moment ago.
pub open spec fn found_or_born(
    world: World,
    wanted: team_data::RepoView,
    given: Answers,
    born: spec_fn((Seq<char>, Seq<char>)) -> RepoState,
) -> RepoState {
    if given.found is Some {
        world.repos[address_of(wanted)]
    } else {
        born(address_of(wanted))
    }
}

/// Whether GitHub answers with the truth about a repository while it is synchronized, and knows
/// it by the name that is wanted.
pub open spec fn answered_truly(
    world: World,
    wanted: team_data::RepoView,
    given: Answers,
    born: spec_fn((Seq<char>, Seq<char>)) -> RepoState,
) -> bool {
    &&& branch_names(wanted).no_duplicates()
    &&& given.found is Some ==> world.repos.contains_key(address_of(wanted))
    &&& (given.repo().org, given.repo().name) == address_of(wanted)
    &&& truthful(found_or_born(world, wanted, given, born), wanted, given)
}

/// The calls that go through the branches of a repository name nothing but it.
proof fn lemma_branch_calls(wanted: team_data::RepoView, given: Answers, count: int)
    requires
        0 <= count <= wanted.branches.len(),
        (given.repo().org, given.repo().name) == address_of(wanted),
    ensures
        forall|i: int|
            0 <= i < requests_of(branches_part(wanted, given, count)).len() ==> only_repo(
                #[trigger] requests_of(branches_part(wanted, given, count))[i],
                address_of(wanted),
            ),
    decreases count,
{
    if count > 0 {
        lemma_branch_calls(wanted, given, count - 1);
        let earlier = branches_part(wanted, given, count - 1);
        let last = branch_part(wanted, given, count - 1);
        lemma_requests_append(earlier, last);
        let all = requests_of(branches_part(wanted, given, count));
        assert forall|i: int| 0 <= i < all.len() implies only_repo(
            #[trigger] all[i],
            address_of(wanted),
        ) by {
            if i < earlier.len() {
                assert(all[i] == requests_of(earlier)[i]);
            } else {
                assert(all[i] == last[i - earlier.len()].0);
            }
        }
    }
}

/// The calls that synchronize a repository after it was found or created name nothing but it.
proof fn lemma_later_calls(wanted: team_data::RepoView, given: Answers)
    requires
        (given.repo().org, given.repo().name) == address_of(wanted),
    ensures
        ({
            let all = requests_of(law_sync::repo_conversation(wanted, given));
            let begun = opening(wanted, given).len();
            &&& begun <= all.len()
            &&& all.take(begun as int) == requests_of(opening(wanted, given))
            &&& forall|i: int|
                begun <= i < all.len() ==> only_repo(#[trigger] all[i], address_of(wanted))
        }),
{
    let count = wanted.branches.len() as int;
    let a = opening(wanted, given);
    let b = access_part(wanted, given);
    let c = seq![
        (
            RequestView::ProtectedBranches { org: given.repo().org, repo: given.repo().name },
            ReplyView::ProtectedBranches(given.protected),
        ),
    ];
    let d = branches_part(wanted, given, count);
    let e = done(removal_requests(wanted, given));
    let talk = law_sync::repo_conversation(wanted, given);
    let all = requests_of(talk);
    assert(talk =~= a + b + c + d + e);
    assert(all.take(a.len() as int) =~= requests_of(a));
    lemma_branch_calls(wanted, given, count);
    let changes = permission_requests(wanted, given.teams, given.users);
    let n1 = team_grants(wanted).len();
    let n2 = user_grants(wanted).len();
    let n3 = stray_teams(wanted, given.teams).len();
    let n4 = stray_users(wanted, given.users).len();
    assert(changes.len() == n1 + n2 + n3 + n4);
    assert forall|i: int| 0 <= i < changes.len() implies only_repo(
        #[trigger] changes[i],
        address_of(wanted),
    ) by {
        if i < n1 {
        } else if i < n1 + n2 {
        } else if i < n1 + n2 + n3 {
        } else {
        }
    }
    assert forall|i: int| 0 <= i < b.len() implies only_repo(
        (#[trigger] b[i]).0,
        address_of(wanted),
    ) by {
        if i >= 2 {
            assert(b[i].0 == changes[i - 2]);
        }
    }
    assert forall|i: int| a.len() <= i < all.len() implies only_repo(
        #[trigger] all[i],
        address_of(wanted),
    ) by {
        if i < a.len() + b.len() {
            assert(talk[i] == b[i - a.len()]);
        } else if i == a.len() + b.len() {
            assert(talk[i] == c[0]);
        } else if i < a.len() + b.len() + 1 + d.len() {
            let j = i - a.len() - b.len() - 1;
            assert(talk[i] == d[j]);
            assert(all[i] == requests_of(d)[j]);
        } else {
            let j = i - a.len() - b.len() - 1 - d.len();
            assert(talk[i] == e[j]);
            assert(all[i] == removal_requests(wanted, given)[j]);
        }
    }
}

/// Synchronizing a repository leaves it as synchronizing leaves it and changes nothing else.
proof fn lemma_synchronized_repo(
    world: World,
    wanted: team_data::RepoView,
    given: Answers,
    born: spec_fn((Seq<char>, Seq<char>)) -> RepoState,
)
    requires
        answered_truly(world, wanted, given, born),
    ensures
        ({
            let ended = perform_all(
                world,
                requests_of(law_sync::repo_conversation(wanted, given)),
                born,
            );
            let address = address_of(wanted);
            &&& ended.teams == world.teams
            &&& ended.repos == world.repos.insert(address, ended.repos[address])
            &&& is_synchronized(
                wanted,
                given,
                found_or_born(world, wanted, given, born),
                ended.repos[address],
            )
        }),
{
    let address = address_of(wanted);
    let before = found_or_born(world, wanted, given, born);
    let all = requests_of(law_sync::repo_conversation(wanted, given));
    let ended = perform_all(world, all, born);
    let begun = opening(wanted, given).len();
    lemma_later_calls(wanted, given);
    law_synchronization_converges(before, wanted, given);
    assert(all.take(begun as int)[0] == all[0]);
    match given.found {
        None => {
            assert(all.take(begun as int)[1] == all[1]);
            let reading = seq![all[0]];
            let rest = all.skip(2);
            assert(all =~= reading + seq![all[1]] + rest);
            assert forall|i: int| 0 <= i < rest.len() implies only_repo(
                #[trigger] rest[i],
                address,
            ) by {
                assert(rest[i] == all[i + 2]);
            }
            lemma_creating_repo(world, reading, all[1], rest, address, born);
        },
        Some(repo) => {
            assert forall|i: int| 0 <= i < all.len() implies only_repo(
                #[trigger] all[i],
                address,
            ) by {
                if i < begun {
                    assert(all.take(begun as int)[i] == all[i]);
                }
            }
            lemma_only_repo(world, all, address, born);
        },
    }
    assert(ended.repos =~= world.repos.insert(address, ended.repos[address]));
}

proof fn lemma_synchronized_repos(
    world: World,
    sync: SyncGitHubView,
    given: spec_fn(int) -> Answers,
    born: spec_fn((Seq<char>, Seq<char>)) -> RepoState,
    count: int,
)
    requires
        0 <= count <= sync.repos.len(),
        sync.repos.map_values(|repo: team_data::RepoView| address_of(repo)).no_duplicates(),
        forall|i: int|
            0 <= i < sync.repos.len() ==> answered_truly(
                world,
                #[trigger] sync.repos[i],
                given(i),
                born,
            ),
    ensures
        ({
            let ended = perform_all(
                world,
                requests_of(law_sync::conversation(sync, given, count)),
                born,
            );
            &&& ended.teams == world.teams
            &&& forall|i: int|
                0 <= i < count ==> {
                    let address = address_of(#[trigger] sync.repos[i]);
                    &&& ended.repos.contains_key(address)
                    &&& is_synchronized(
                        sync.repos[i],
                        given(i),
                        found_or_born(world, sync.repos[i], given(i), born),
                        ended.repos[address],
                    )
                }
            &&& forall|address: (Seq<char>, Seq<char>)|
                (forall|i: int| 0 <= i < count ==> address_of(#[trigger] sync.repos[i]) != address)
                    ==> {
                    &&& #[trigger] ended.repos.contains_key(address)
                        <==> world.repos.contains_key(address)
                    &&& ended.repos[address] == world.repos[address]
                }
        }),
    decreases count,
{
    let ended = perform_all(
        world,
        requests_of(law_sync::conversation(sync, given, count)),
        born,
    );
    if count == 0 {
        assert(requests_of(law_sync::conversation(sync, given, 0)) =~= Seq::empty());
    } else {
        let index = count - 1;
        let wanted = sync.repos[index];
        let address = address_of(wanted);
        lemma_synchronized_repos(world, sync, given, born, index);
        let earlier = law_sync::conversation(sync, given, index);
        let last = law_sync::repo_conversation(wanted, given(index));
        let middle = perform_all(world, requests_of(earlier), born);
        lemma_requests_append(earlier, last);
        lemma_perform_append(world, requests_of(earlier), requests_of(last), born);
        assert(ended == perform_all(middle, requests_of(last), born));
        let addresses = sync.repos.map_values(|repo: team_data::RepoView| address_of(repo));
        assert forall|i: int| 0 <= i < index implies address_of(#[trigger] sync.repos[i])
            != address by {
            assert(addresses[i] != addresses[index]);
        }
        assert(middle.repos.contains_key(address) <==> world.repos.contains_key(address));
        assert(answered_truly(world, sync.repos[index], given(index), born));
        assert(answered_truly(middle, wanted, given(index), born));
        lemma_synchronized_repo(middle, wanted, given(index), born);
        assert forall|i: int| 0 <= i < count implies {
            let address = address_of(#[trigger] sync.repos[i]);
            &&& ended.repos.contains_key(address)
            &&& is_synchronized(
                sync.repos[i],
                given(i),
                found_or_born(world, sync.repos[i], given(i), born),
                ended.repos[address],
            )
        } by {
            if i < index {
                assert(address_of(sync.repos[i]) != address);
            }
        }
        assert forall|other: (Seq<char>, Seq<char>)|
            (forall|i: int| 0 <= i < count ==> address_of(#[trigger] sync.repos[i])
                != other) implies {
            &&& #[trigger] ended.repos.contains_key(other) <==> world.repos.contains_key(other)
            &&& ended.repos[other] == world.repos[other]
        } by {
            assert(address_of(sync.repos[index]) != other);
            assert(forall|i: int| 0 <= i < index ==> address_of(#[trigger] sync.repos[i]) != other);
            assert(middle.repos.contains_key(other) <==> world.repos.contains_key(other));
        }
    }
}

/// A synchronization leaves every wanted repository as synchronizing that repository leaves it,
/// so as it is wanted unless a branch was missing and the main branch has no head, and leaves all
/// other repositories and all teams alone; provided that no two wanted repositories have the same
/// name, and that GitHub answers with the truth. The calls that do so are exactly those that a
/// synchronization makes.
pub proof fn law_synchronization_makes_the_repositories_as_wanted(
    world: World,
    sync: SyncGitHubView,
    given: spec_fn(int) -> Answers,
    born: spec_fn((Seq<char>, Seq<char>)) -> RepoState,
)
    requires
        sync.repos.map_values(|repo: team_data::RepoView| address_of(repo)).no_duplicates(),
        forall|i: int|
            0 <= i < sync.repos.len() ==> answered_truly(
                world,
                #[trigger] sync.repos[i],
                given(i),
                born,
            ),
    ensures
        law_sync::follows(
            sync_run::start(sync),
            law_sync::conversation(sync, given, sync.repos.len() as int),
        ),
        law_sync::after(
            sync_run::start(sync),
            law_sync::conversation(sync, given, sync.repos.len() as int),
        ).pending() is None,
        ({
            let ended = perform_all(
                world,
                requests_of(law_sync::conversation(sync, given, sync.repos.len() as int)),
                born,
            );
            &&& ended.teams == world.teams
            &&& forall|i: int|
                0 <= i < sync.repos.len() ==> {
                    let address = address_of(#[trigger] sync.repos[i]);
                    &&& ended.repos.contains_key(address)
                    &&& is_synchronized(
                        sync.repos[i],
                        given(i),
                        found_or_born(world, sync.repos[i], given(i), born),
                        ended.repos[address],
                    )
                }
            &&& forall|address: (Seq<char>, Seq<char>)|
                (forall|i: int|
                    0 <= i < sync.repos.len() ==> address_of(#[trigger] sync.repos[i]) != address)
                    ==> {
                    &&& #[trigger] ended.repos.contains_key(address)
                        <==> world.repos.contains_key(address)
                    &&& ended.repos[address] == world.repos[address]
                }
        }),
{
    law_sync::law_synchronization(sync, given);
    lemma_synchronized_repos(world, sync, given, born, sync.repos.len() as int);
}

} // verus!
