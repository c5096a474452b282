//! Laws about comparing the wanted state with GitHub.
use vstd::prelude::*;

use crate::api;
use crate::branches::BranchStateView;
use crate::call::{answers, reads, ReplyView, RequestView};
use crate::diff::{DiffView, RepoDiffView, TeamDiffView};
use crate::diff_run::{start, DiffRunView, DiffStageView};
use crate::lists::{distinct, keys, lemma_lookup, lookup};
use crate::repos::{repo_diff, ActualRepoView};
use crate::sync::{github_teams, SyncGitHubView};
use crate::team_data::{BranchView, GitHubTeamView, RepoView};
use crate::teams::{members_known, team_deletions, team_diff, ActualTeamView};

verus! {

/// A comparison changes nothing: all its calls only read.
pub proof fn law_comparing_only_reads(run: DiffRunView)
    ensures
        run.pending() matches Some(request) ==> reads(request),
{
}

/// The head of the main branch, as far as it is known while a repository is compared.
pub open spec fn known_head(run: DiffRunView) -> Option<Seq<char>> {
    match run.stage {
        DiffStageView::Branch { head, .. } | DiffStageView::Protection { head, .. } => head,
        _ => None,
    }
}

/// While a repository is compared, the head of the main branch is asked for at most once: the
/// answer is kept until the repository is done, and where it is known it is not asked for.
pub proof fn law_head_is_asked_once(run: DiffRunView, reply: ReplyView)
    requires
        run.accepts(reply),
    ensures
        ({
            let next = run.next(reply);
            let head = if run.stage is Head {
                reply->Branch_0
            } else {
                known_head(run)
            };
            head is Some ==> {
                &&& !(next.stage is Head)
                &&& known_head(next) == head || next.repo_diffs.len() == run.repo_diffs.len() + 1
            }
        }),
{
}

/// Whether `github` answers every call that reads.
pub open spec fn answering(github: spec_fn(RequestView) -> ReplyView) -> bool {
    forall|request: RequestView| reads(request) ==> answers(request, #[trigger] github(request))
}

/// Whether a run gets to another one by `count` calls, all of which `github` answers with
/// something that the run can go on with.
pub open spec fn leads(
    run: DiffRunView,
    github: spec_fn(RequestView) -> ReplyView,
    count: nat,
    end: DiffRunView,
) -> bool
    decreases count,
{
    if count == 0 {
        run == end
    } else {
        &&& run.pending() is Some
        &&& run.accepts(github(run.pending()->0))
        &&& leads(run.next(github(run.pending()->0)), github, (count - 1) as nat, end)
    }
}

/// Whether a run gets to another one.
pub open spec fn reaches(
    run: DiffRunView,
    github: spec_fn(RequestView) -> ReplyView,
    end: DiffRunView,
) -> bool {
    exists|count: nat| leads(run, github, count, end)
}

/// What there is of a team.
pub open spec fn team_there(
    github: spec_fn(RequestView) -> ReplyView,
    team: GitHubTeamView,
) -> Option<ActualTeamView> {
    match github(RequestView::Team { org: team.org, name: team.name })->Team_0 {
        None => None,
        Some(there) => Some(
            ActualTeamView {
                team: there,
                members: github(
                    RequestView::TeamMemberships { org: team.org, of_team: there },
                )->TeamMemberships_0,
            },
        ),
    }
}

/// The commit at the head of the main branch of a repository.
pub open spec fn main_head(
    github: spec_fn(RequestView) -> ReplyView,
    there: api::RepoView,
) -> Option<Seq<char>> {
    github(
        RequestView::Branch { org: there.org, repo: there.name, branch: there.default_branch },
    )->Branch_0
}

/// Whether a branch of a repository is missing.
pub open spec fn is_missing(
    github: spec_fn(RequestView) -> ReplyView,
    repo: RepoView,
    branch: BranchView,
) -> bool {
    github(
        RequestView::Branch { org: repo.org, repo: repo.name, branch: branch.name },
    )->Branch_0 is None
}

/// What there is of a branch.
pub open spec fn branch_there(
    github: spec_fn(RequestView) -> ReplyView,
    repo: RepoView,
    there: api::RepoView,
    branch: BranchView,
) -> BranchStateView {
    if is_missing(github, repo, branch) {
        BranchStateView::Missing { head: main_head(github, there)->0 }
    } else {
        BranchStateView::Present {
            protection: github(
                RequestView::BranchProtection {
                    org: there.org,
                    repo: there.name,
                    branch: branch.name,
                },
            )->BranchProtection_0,
        }
    }
}

/// What there is of some branches.
pub open spec fn branches_there(
    github: spec_fn(RequestView) -> ReplyView,
    repo: RepoView,
    there: api::RepoView,
    branches: Seq<BranchView>,
) -> Seq<BranchStateView> {
    branches.map_values(|branch: BranchView| branch_there(github, repo, there, branch))
}

/// What there is of a repository.
pub open spec fn repo_there(
    github: spec_fn(RequestView) -> ReplyView,
    repo: RepoView,
) -> Option<ActualRepoView> {
    match github(RequestView::Repo { org: repo.org, name: repo.name })->Repo_0 {
        None => None,
        Some(there) => Some(
            ActualRepoView {
                repo: there,
                teams: github(
                    RequestView::RepoTeams { org: repo.org, repo: repo.name },
                )->RepoTeams_0,
                collaborators: github(
                    RequestView::RepoCollaborators { org: repo.org, repo: repo.name },
                )->RepoCollaborators_0,
                protected: github(
                    RequestView::ProtectedBranches { org: there.org, repo: there.name },
                )->ProtectedBranches_0,
                branches: branches_there(github, repo, there, repo.branches),
            },
        ),
    }
}

/// The organizations of some teams, each once, with their teams.
pub open spec fn listings_there(
    github: spec_fn(RequestView) -> ReplyView,
    teams: Seq<GitHubTeamView>,
) -> Seq<(Seq<char>, Seq<Seq<char>>)> {
    distinct(teams.map_values(|team: GitHubTeamView| team.org)).map_values(
        |org: Seq<char>| (org, github(RequestView::OrgTeams { org })->OrgTeams_0),
    )
}

/// The diffs of some teams.
pub open spec fn team_diffs_there(
    github: spec_fn(RequestView) -> ReplyView,
    sync: SyncGitHubView,
    teams: Seq<GitHubTeamView>,
) -> Seq<TeamDiffView> {
    teams.map_values(|team: GitHubTeamView| team_diff(sync, team, team_there(github, team)))
}

/// The diffs of some repositories.
pub open spec fn repo_diffs_there(
    github: spec_fn(RequestView) -> ReplyView,
    repos: Seq<RepoView>,
) -> Seq<RepoDiffView> {
    repos.map_values(|repo: RepoView| repo_diff(repo, repo_there(github, repo)))
}

/// The difference between the wanted state and GitHub: the diffs of all teams, the deletions,
/// and the diffs of all repositories.
pub open spec fn difference(
    github: spec_fn(RequestView) -> ReplyView,
    sync: SyncGitHubView,
) -> DiffView {
    let teams = github_teams(sync.teams);
    DiffView {
        team_diffs: team_diffs_there(github, sync, teams) + team_deletions(
            sync,
            listings_there(github, teams),
        ),
        repo_diffs: repo_diffs_there(github, sync.repos),
    }
}

/// Whether the main branch of a repository that is there has a head, if one of the branches
/// that are to be protected is missing.
pub open spec fn head_known(github: spec_fn(RequestView) -> ReplyView, repo: RepoView) -> bool {
    let found = github(RequestView::Repo { org: repo.org, name: repo.name })->Repo_0;
    found is Some && (exists|i: int|
        0 <= i < repo.branches.len() && is_missing(github, repo, #[trigger] repo.branches[i]))
        ==> main_head(github, found->0) is Some
}

proof fn lemma_leads_transitive(
    run: DiffRunView,
    github: spec_fn(RequestView) -> ReplyView,
    first: nat,
    middle: DiffRunView,
    second: nat,
    end: DiffRunView,
)
    requires
        leads(run, github, first, middle),
        leads(middle, github, second, end),
    ensures
        leads(run, github, first + second, end),
    decreases first,
{
    if first > 0 {
        lemma_leads_transitive(
            run.next(github(run.pending()->0)),
            github,
            (first - 1) as nat,
            middle,
            second,
            end,
        );
    }
}

proof fn lemma_reaches_transitive(
    run: DiffRunView,
    github: spec_fn(RequestView) -> ReplyView,
    middle: DiffRunView,
    end: DiffRunView,
)
    requires
        reaches(run, github, middle),
        reaches(middle, github, end),
    ensures
        reaches(run, github, end),
{
    let first = choose|count: nat| leads(run, github, count, middle);
    let second = choose|count: nat| leads(middle, github, count, end);
    lemma_leads_transitive(run, github, first, middle, second, end);
}

proof fn lemma_reaches_self(run: DiffRunView, github: spec_fn(RequestView) -> ReplyView)
    ensures
        reaches(run, github, run),
{
    assert(leads(run, github, 0, run));
}

/// A run gets to the one after its next call.
proof fn lemma_step(
    run: DiffRunView,
    github: spec_fn(RequestView) -> ReplyView,
    request: RequestView,
)
    requires
        run.pending() == Some(request),
        run.accepts(github(request)),
    ensures
        reaches(run, github, run.next(github(request))),
{
    let next = run.next(github(request));
    assert(leads(next, github, 0, next));
    assert(leads(run, github, 1, next));
}

/// The run when the first `count` teams are done.
spec fn teams_done(
    github: spec_fn(RequestView) -> ReplyView,
    sync: SyncGitHubView,
    count: int,
) -> DiffRunView {
    let teams = github_teams(sync.teams).take(count);
    (DiffRunView {
        sync,
        listings: listings_there(github, teams),
        team_diffs: team_diffs_there(github, sync, teams),
        repo_diffs: Seq::empty(),
        stage: DiffStageView::Done,
    }).at_team()
}

proof fn lemma_listings(
    github: spec_fn(RequestView) -> ReplyView,
    teams: Seq<GitHubTeamView>,
    count: int,
)
    requires
        0 <= count < teams.len(),
    ensures
        ({
            let org = teams[count].org;
            let before = listings_there(github, teams.take(count));
            let after = listings_there(github, teams.take(count + 1));
            after == if lookup(before, org) is Some {
                before
            } else {
                before.push((org, github(RequestView::OrgTeams { org })->OrgTeams_0))
            }
        }),
{
    let org_of = |team: GitHubTeamView| team.org;
    let org = teams[count].org;
    let earlier = teams.take(count).map_values(org_of);
    let orgs = teams.take(count + 1).map_values(org_of);
    assert(orgs.drop_last() =~= earlier);
    assert(orgs.last() == org);
    let before = listings_there(github, teams.take(count));
    let after = listings_there(github, teams.take(count + 1));
    assert(keys(before) =~= distinct(earlier));
    lemma_lookup(before, org);
    if distinct(earlier).contains(org) {
        assert(after =~= before);
    } else {
        assert(after =~= before.push((org, github(RequestView::OrgTeams { org })->OrgTeams_0)));
    }
}

proof fn lemma_team(
    github: spec_fn(RequestView) -> ReplyView,
    sync: SyncGitHubView,
    count: int,
)
    requires
        answering(github),
        0 <= count < github_teams(sync.teams).len(),
        members_known(sync, github_teams(sync.teams)[count]),
    ensures
        reaches(
            teams_done(github, sync, count),
            github,
            teams_done(github, sync, count + 1),
        ),
{
    let teams = github_teams(sync.teams);
    let team = teams[count];
    let run = teams_done(github, sync, count);
    let end = teams_done(github, sync, count + 1);
    lemma_listings(github, teams, count);
    assert(run.team_diffs.len() == count);
    assert(run.team() == team);
    let listed = listings_there(github, teams.take(count + 1));
    let at_team = DiffRunView { listings: listed, stage: DiffStageView::Team, ..run };
    if run.stage is OrgTeams {
        lemma_step(run, github, RequestView::OrgTeams { org: team.org });
    } else {
        lemma_reaches_self(run, github);
    }
    assert(reaches(run, github, at_team));
    let ask = RequestView::Team { org: team.org, name: team.name };
    let reply = github(ask);
    assert(answers(ask, github(ask)));
    lemma_step(at_team, github, ask);
    let asked = at_team.next(reply);
    let diffs = team_diffs_there(github, sync, teams.take(count));
    let diff = team_diff(sync, team, team_there(github, team));
    assert(team_diffs_there(github, sync, teams.take(count + 1)) =~= diffs.push(diff));
    match reply->Team_0 {
        None => {
            assert(asked == end);
        },
        Some(there) => {
            let members = RequestView::TeamMemberships { org: team.org, of_team: there };
            assert(answers(members, github(members)));
            lemma_step(asked, github, members);
            assert(asked.next(github(members)) == end);
            lemma_reaches_transitive(at_team, github, asked, end);
        },
    }
    lemma_reaches_transitive(run, github, at_team, end);
}

proof fn lemma_teams(
    github: spec_fn(RequestView) -> ReplyView,
    sync: SyncGitHubView,
    count: int,
)
    requires
        answering(github),
        0 <= count <= github_teams(sync.teams).len(),
        forall|i: int|
            0 <= i < github_teams(sync.teams).len() ==> members_known(
                sync,
                #[trigger] github_teams(sync.teams)[i],
            ),
    ensures
        reaches(start(sync), github, teams_done(github, sync, count)),
    decreases count,
{
    if count == 0 {
        let none = github_teams(sync.teams).take(0);
        assert(none =~= Seq::empty());
        assert(listings_there(github, none) =~= Seq::empty());
        assert(team_diffs_there(github, sync, none) =~= Seq::empty());
        lemma_reaches_self(start(sync), github);
    } else {
        lemma_teams(github, sync, count - 1);
        lemma_team(github, sync, count - 1);
        lemma_reaches_transitive(
            start(sync),
            github,
            teams_done(github, sync, count - 1),
            teams_done(github, sync, count),
        );
    }
}

/// Whether one of the first `count` branches is missing.
spec fn some_missing(
    github: spec_fn(RequestView) -> ReplyView,
    repo: RepoView,
    count: int,
) -> bool {
    exists|i: int| 0 <= i < count && is_missing(github, repo, #[trigger] repo.branches[i])
}

/// What is known of a repository when the first `count` branches are done.
spec fn seen(
    github: spec_fn(RequestView) -> ReplyView,
    repo: RepoView,
    count: int,
) -> ActualRepoView {
    let all = repo_there(github, repo)->0;
    ActualRepoView {
        branches: branches_there(github, repo, all.repo, repo.branches.take(count)),
        ..all
    }
}

/// The run when the first `count` branches of the current repository are done.
spec fn branches_done(
    run: DiffRunView,
    github: spec_fn(RequestView) -> ReplyView,
    repo: RepoView,
    count: int,
) -> DiffRunView {
    let there = repo_there(github, repo)->0.repo;
    run.at_branch(
        seen(github, repo, count),
        if some_missing(github, repo, count) {
            main_head(github, there)
        } else {
            None
        },
    )
}

proof fn lemma_branch(
    run: DiffRunView,
    github: spec_fn(RequestView) -> ReplyView,
    repo: RepoView,
    index: int,
)
    requires
        answering(github),
        run.repo() == repo,
        repo_there(github, repo) is Some,
        head_known(github, repo),
        0 <= index < repo.branches.len(),
    ensures
        reaches(
            branches_done(run, github, repo, index),
            github,
            branches_done(run, github, repo, index + 1),
        ),
{
    let there = repo_there(github, repo)->0.repo;
    let branch = repo.branches[index];
    let now = branches_done(run, github, repo, index);
    let end = branches_done(run, github, repo, index + 1);
    let known = some_missing(github, repo, index);
    let missing = is_missing(github, repo, branch);
    assert(some_missing(github, repo, index + 1) <==> known || missing) by {
        if missing {
            assert(is_missing(github, repo, repo.branches[index]));
        }
        if known {
            let i = choose|i: int|
                0 <= i < index && is_missing(github, repo, #[trigger] repo.branches[i]);
            assert(is_missing(github, repo, repo.branches[i]));
        }
    }
    if known || missing {
        let i = choose|i: int|
            0 <= i < index + 1 && is_missing(github, repo, #[trigger] repo.branches[i]);
        assert(is_missing(github, repo, repo.branches[i]));
        assert(main_head(github, there) is Some);
    }
    assert(seen(github, repo, index).branches.len() == index);
    let state = branch_there(github, repo, there, branch);
    assert(seen(github, repo, index + 1).branches =~= seen(github, repo, index).branches.push(
        state,
    ));
    let look = RequestView::Branch { org: repo.org, repo: repo.name, branch: branch.name };
    assert(answers(look, github(look)));
    lemma_step(now, github, look);
    let looked = now.next(github(look));
    if missing {
        if known {
            assert(looked == end);
        } else {
            let ask = RequestView::Branch {
                org: there.org,
                repo: there.name,
                branch: there.default_branch,
            };
            assert(answers(ask, github(ask)));
            lemma_step(looked, github, ask);
            assert(looked.next(github(ask)) == end);
            lemma_reaches_transitive(now, github, looked, end);
        }
    } else {
        let ask = RequestView::BranchProtection {
            org: there.org,
            repo: there.name,
            branch: branch.name,
        };
        assert(answers(ask, github(ask)));
        lemma_step(looked, github, ask);
        assert(looked.next(github(ask)) == end);
        lemma_reaches_transitive(now, github, looked, end);
    }
}

proof fn lemma_branches(
    run: DiffRunView,
    github: spec_fn(RequestView) -> ReplyView,
    repo: RepoView,
    count: int,
)
    requires
        answering(github),
        run.repo() == repo,
        repo_there(github, repo) is Some,
        head_known(github, repo),
        0 <= count <= repo.branches.len(),
    ensures
        reaches(
            branches_done(run, github, repo, 0),
            github,
            branches_done(run, github, repo, count),
        ),
    decreases count,
{
    if count == 0 {
        lemma_reaches_self(branches_done(run, github, repo, 0), github);
    } else {
        lemma_branches(run, github, repo, count - 1);
        lemma_branch(run, github, repo, count - 1);
        lemma_reaches_transitive(
            branches_done(run, github, repo, 0),
            github,
            branches_done(run, github, repo, count - 1),
            branches_done(run, github, repo, count),
        );
    }
}

proof fn lemma_repo(run: DiffRunView, github: spec_fn(RequestView) -> ReplyView)
    requires
        answering(github),
        run.stage is Repo,
        run.repo_diffs.len() < run.sync.repos.len(),
        head_known(github, run.repo()),
    ensures
        reaches(run, github, run.with_repo(repo_there(github, run.repo()))),
{
    let repo = run.repo();
    let end = run.with_repo(repo_there(github, repo));
    let ask = RequestView::Repo { org: repo.org, name: repo.name };
    assert(answers(ask, github(ask)));
    lemma_step(run, github, ask);
    let found = run.next(github(ask));
    if repo_there(github, repo) is Some {
        let there = repo_there(github, repo)->0.repo;
        let teams = RequestView::RepoTeams { org: repo.org, repo: repo.name };
        assert(answers(teams, github(teams)));
        lemma_step(found, github, teams);
        let run_b = found.next(github(teams));
        let users = RequestView::RepoCollaborators { org: repo.org, repo: repo.name };
        assert(answers(users, github(users)));
        lemma_step(run_b, github, users);
        let run_c = run_b.next(github(users));
        let protected = RequestView::ProtectedBranches { org: there.org, repo: there.name };
        assert(answers(protected, github(protected)));
        lemma_step(run_c, github, protected);
        let run_d = run_c.next(github(protected));
        let count = repo.branches.len() as int;
        assert(repo.branches.take(0) =~= Seq::empty());
        assert(seen(github, repo, 0).branches =~= Seq::empty());
        assert(!some_missing(github, repo, 0));
        assert(run_d == branches_done(run_c, github, repo, 0));
        lemma_branches(run_c, github, repo, count);
        assert(repo.branches.take(count) =~= repo.branches);
        assert(branches_done(run_c, github, repo, count) == end);
        lemma_reaches_transitive(run, github, found, run_b);
        lemma_reaches_transitive(run, github, run_b, run_c);
        lemma_reaches_transitive(run, github, run_c, run_d);
        lemma_reaches_transitive(run, github, run_d, end);
    } else {
        assert(found == end);
    }
}

/// The run when the first `count` repositories are done.
spec fn repos_done(
    run: DiffRunView,
    github: spec_fn(RequestView) -> ReplyView,
    count: int,
) -> DiffRunView {
    (DiffRunView {
        repo_diffs: repo_diffs_there(github, run.sync.repos.take(count)),
        ..run
    }).at_repo()
}

proof fn lemma_repos(run: DiffRunView, github: spec_fn(RequestView) -> ReplyView, count: int)
    requires
        answering(github),
        0 <= count <= run.sync.repos.len(),
        forall|i: int|
            0 <= i < run.sync.repos.len() ==> head_known(github, #[trigger] run.sync.repos[i]),
    ensures
        reaches(repos_done(run, github, 0), github, repos_done(run, github, count)),
    decreases count,
{
    if count == 0 {
        lemma_reaches_self(repos_done(run, github, 0), github);
    } else {
        lemma_repos(run, github, count - 1);
        let now = repos_done(run, github, count - 1);
        let end = repos_done(run, github, count);
        let repo = run.sync.repos[count - 1];
        assert(now.repo() == repo);
        lemma_repo(now, github);
        let diff = repo_diff(repo, repo_there(github, repo));
        assert(repo_diffs_there(github, run.sync.repos.take(count)) =~= repo_diffs_there(
            github,
            run.sync.repos.take(count - 1),
        ).push(diff));
        assert(now.with_repo(repo_there(github, repo)) == end);
        lemma_reaches_transitive(repos_done(run, github, 0), github, now, end);
    }
}

/// Against a GitHub that answers, a comparison ends with exactly the difference between the
/// wanted state and GitHub, provided that the usernames of all members are known and that
/// the main branch has a head wherever a branch is missing.
pub proof fn law_comparing_finds_the_difference(
    github: spec_fn(RequestView) -> ReplyView,
    sync: SyncGitHubView,
)
    requires
        answering(github),
        forall|i: int|
            0 <= i < github_teams(sync.teams).len() ==> members_known(
                sync,
                #[trigger] github_teams(sync.teams)[i],
            ),
        forall|i: int| 0 <= i < sync.repos.len() ==> head_known(github, #[trigger] sync.repos[i]),
    ensures
        reaches(
            start(sync),
            github,
            DiffRunView {
                sync,
                listings: listings_there(github, github_teams(sync.teams)),
                team_diffs: difference(github, sync).team_diffs,
                repo_diffs: difference(github, sync).repo_diffs,
                stage: DiffStageView::Done,
            },
        ),
{
    let teams = github_teams(sync.teams);
    let count = teams.len() as int;
    lemma_teams(github, sync, count);
    assert(teams.take(count) =~= teams);
    let middle = teams_done(github, sync, count);
    assert(sync.repos.take(0) =~= Seq::empty());
    assert(repo_diffs_there(github, sync.repos.take(0)) =~= Seq::empty());
    assert(middle == repos_done(middle, github, 0));
    lemma_repos(middle, github, sync.repos.len() as int);
    assert(sync.repos.take(sync.repos.len() as int) =~= sync.repos);
    let end = repos_done(middle, github, sync.repos.len() as int);
    lemma_reaches_transitive(start(sync), github, middle, end);
}

} // verus!
