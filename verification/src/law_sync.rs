//! Laws about the synchronization of repositories: which calls are made, in which order, and
//! what they lead to.
use vstd::prelude::*;

use crate::api::{RepoTeamView, RepoUserView};
use crate::branches::stray_protections;
use crate::call::{answers, ReplyView, RequestView};
use crate::permissions::{stray_teams, stray_users, team_grants, user_grants};
use crate::rules::wanted_protection;
use crate::sync::SyncGitHubView;
use crate::sync_run::{permission_requests, start, BranchProgressView, SyncRunView, SyncStageView};
use crate::{api, team_data};

verus! {

/// Whether a run makes exactly the calls of a conversation, when it is given the replies of it.
pub open spec fn follows(run: SyncRunView, conversation: Seq<(RequestView, ReplyView)>) -> bool
    decreases conversation.len(),
{
    conversation.len() == 0 || {
        &&& run.pending() == Some(conversation[0].0)
        &&& run.accepts(conversation[0].1)
        &&& follows(run.next(conversation[0].1), conversation.drop_first())
    }
}

/// The run after a conversation.
pub open spec fn after(run: SyncRunView, conversation: Seq<(RequestView, ReplyView)>) -> SyncRunView
    decreases conversation.len(),
{
    if conversation.len() == 0 {
        run
    } else {
        after(run.next(conversation[0].1), conversation.drop_first())
    }
}

/// What GitHub answers while a repository is synchronized.
pub struct Answers {
    /// The repository, if it is there.
    pub found: Option<api::RepoView>,
    /// What creating the repository gives.
    pub created: api::RepoView,
    pub teams: Seq<RepoTeamView>,
    pub users: Seq<RepoUserView>,
    /// The protected branches.
    pub protected: Seq<Seq<char>>,
    /// The commits at the heads of the branches that are to be protected, if they are there.
    pub branches: Seq<Option<Seq<char>>>,
    /// The commit at the head of the main branch, if it is there.
    pub head: Option<Seq<char>>,
    /// Which protections could be set.
    pub updated: Seq<bool>,
}

impl Answers {
    /// The repository that is there in the end.
    pub open spec fn repo(self) -> api::RepoView {
        match self.found {
            Some(repo) => repo,
            None => self.created,
        }
    }
}

/// The beginning: the repository is looked for. One that is missing is created; one that has
/// another description gets the wanted one.
pub open spec fn opening(wanted: team_data::RepoView, given: Answers) -> Seq<
    (RequestView, ReplyView),
> {
    let look = (
        RequestView::Repo { org: wanted.org, name: wanted.name },
        ReplyView::Repo(given.found),
    );
    match given.found {
        None => seq![
            look,
            (
                RequestView::CreateRepo {
                    org: wanted.org,
                    name: wanted.name,
                    description: wanted.description,
                },
                ReplyView::CreatedRepo(given.created),
            ),
        ],
        Some(repo) => if repo.description == Some(wanted.description) {
            seq![look]
        } else {
            seq![
                look,
                (
                    RequestView::EditRepo {
                        org: repo.org,
                        name: repo.name,
                        description: wanted.description,
                    },
                    ReplyView::Done,
                ),
            ]
        },
    }
}

/// Who has access is asked for, and then it is changed.
pub open spec fn access_part(wanted: team_data::RepoView, given: Answers) -> Seq<
    (RequestView, ReplyView),
> {
    seq![
        (
            RequestView::RepoTeams { org: wanted.org, repo: wanted.name },
            ReplyView::RepoTeams(given.teams),
        ),
        (
            RequestView::RepoCollaborators { org: wanted.org, repo: wanted.name },
            ReplyView::RepoCollaborators(given.users),
        ),
    ] + done(permission_requests(wanted, given.teams, given.users))
}

/// Calls that are carried out with nothing to tell.
pub open spec fn done(requests: Seq<RequestView>) -> Seq<(RequestView, ReplyView)> {
    requests.map_values(|request: RequestView| (request, ReplyView::Done))
}

/// Whether one of the first `count` branches is missing.
pub open spec fn some_missing(given: Answers, count: int) -> bool {
    exists|i: int| 0 <= i < count && #[trigger] given.branches[i] is None
}

/// One branch is looked for and protected. One that is missing is created first, at the head of
/// the main branch; the head is asked for when the first branch is missing, and never again.
/// Where the main branch has no head, no branch is created.
pub open spec fn branch_part(
    wanted: team_data::RepoView,
    given: Answers,
    index: int,
) -> Seq<(RequestView, ReplyView)> {
    let org = given.repo().org;
    let repo = given.repo().name;
    let branch = wanted.branches[index].name;
    let look = seq![
        (RequestView::Branch { org, repo, branch }, ReplyView::Branch(given.branches[index])),
    ];
    let ask = if given.branches[index] is None && !some_missing(given, index) {
        seq![
            (
                RequestView::Branch { org, repo, branch: given.repo().default_branch },
                ReplyView::Branch(given.head),
            ),
        ]
    } else {
        Seq::empty()
    };
    let create = if given.branches[index] is None && given.head is Some {
        seq![
            (
                RequestView::CreateBranch { org, repo, branch, commit: given.head->0 },
                ReplyView::Done,
            ),
        ]
    } else {
        Seq::empty()
    };
    let protect = seq![
        (
            RequestView::UpdateBranchProtection {
                org,
                repo,
                branch,
                protection: wanted_protection(wanted, wanted.branches[index]),
            },
            ReplyView::ProtectionUpdated(given.updated[index]),
        ),
    ];
    look + ask + create + protect
}

/// The first `count` branches are looked for and protected.
pub open spec fn branches_part(
    wanted: team_data::RepoView,
    given: Answers,
    count: int,
) -> Seq<(RequestView, ReplyView)>
    decreases count,
{
    if count <= 0 {
        Seq::empty()
    } else {
        branches_part(wanted, given, count - 1) + branch_part(wanted, given, count - 1)
    }
}

/// The calls that remove the protections of branches that are not meant to have one.
pub open spec fn removal_requests(wanted: team_data::RepoView, given: Answers) -> Seq<RequestView> {
    stray_protections(wanted, given.protected).map_values(
        |branch: Seq<char>|
            RequestView::DeleteBranchProtection {
                org: given.repo().org,
                repo: given.repo().name,
                branch,
            },
    )
}

/// The conversation that synchronizes a repository.
pub open spec fn repo_conversation(
    wanted: team_data::RepoView,
    given: Answers,
) -> Seq<(RequestView, ReplyView)> {
    opening(wanted, given) + access_part(wanted, given) + seq![
        (
            RequestView::ProtectedBranches { org: given.repo().org, repo: given.repo().name },
            ReplyView::ProtectedBranches(given.protected),
        ),
    ] + branches_part(wanted, given, wanted.branches.len() as int) + done(
        removal_requests(wanted, given),
    )
}

/// The conversation that synchronizes the first `count` repositories.
pub open spec fn conversation(
    sync: SyncGitHubView,
    given: spec_fn(int) -> Answers,
    count: int,
) -> Seq<(RequestView, ReplyView)>
    decreases count,
{
    if count <= 0 {
        Seq::empty()
    } else {
        conversation(sync, given, count - 1) + repo_conversation(
            sync.repos[count - 1],
            given(count - 1),
        )
    }
}

proof fn lemma_follows_append(
    run: SyncRunView,
    a: Seq<(RequestView, ReplyView)>,
    b: Seq<(RequestView, ReplyView)>,
)
    requires
        follows(run, a),
        follows(after(run, a), b),
    ensures
        follows(run, a + b),
        after(run, a + b) == after(after(run, a), b),
    decreases a.len(),
{
    if a.len() == 0 {
        assert(a + b =~= b);
    } else {
        assert((a + b).drop_first() =~= a.drop_first() + b);
        lemma_follows_append(run.next(a[0].1), a.drop_first(), b);
    }
}

/// A conversation of one call.
proof fn lemma_one(run: SyncRunView, request: RequestView, reply: ReplyView)
    requires
        run.pending() == Some(request),
        answers(request, reply),
    ensures
        follows(run, seq![(request, reply)]),
        after(run, seq![(request, reply)]) == run.next(reply),
{
    let talk = seq![(request, reply)];
    assert(talk.drop_first() =~= Seq::empty());
    assert(follows(run.next(reply), talk.drop_first()));
    assert(after(run.next(reply), talk.drop_first()) == run.next(reply));
}

proof fn lemma_opening(run: SyncRunView, wanted: team_data::RepoView, given: Answers)
    requires
        run.stage is Repo,
        run.repo() == wanted,
    ensures
        follows(run, opening(wanted, given)),
        after(run, opening(wanted, given)) == (SyncRunView {
            stage: SyncStageView::RepoTeams { repo: given.repo() },
            ..run
        }),
{
    let look = (
        RequestView::Repo { org: wanted.org, name: wanted.name },
        ReplyView::Repo(given.found),
    );
    let talk = opening(wanted, given);
    lemma_one(run, look.0, look.1);
    let next = run.next(look.1);
    if talk.len() == 2 {
        lemma_one(next, talk[1].0, talk[1].1);
        lemma_follows_append(run, seq![look], seq![talk[1]]);
        assert(talk =~= seq![look] + seq![talk[1]]);
    }
}

proof fn lemma_permissions(
    run: SyncRunView,
    repo: api::RepoView,
    requests: Seq<RequestView>,
    sent: int,
)
    requires
        run == run.at_permission(repo, requests, sent),
        0 <= sent <= requests.len(),
        forall|i: int|
            0 <= i < requests.len() ==> answers(#[trigger] requests[i], ReplyView::Done),
    ensures
        follows(run, done(requests.skip(sent))),
        after(run, done(requests.skip(sent))) == (SyncRunView {
            stage: SyncStageView::ProtectedBranches { repo },
            ..run
        }),
    decreases requests.len() - sent,
{
    let talk = done(requests.skip(sent));
    if sent < requests.len() {
        assert(talk[0] == (requests[sent], ReplyView::Done));
        let next = run.next(ReplyView::Done);
        assert(talk.drop_first() =~= done(requests.skip(sent + 1)));
        lemma_permissions(next, repo, requests, sent + 1);
    } else {
        assert(talk =~= Seq::empty());
    }
}

proof fn lemma_permission_requests_done(
    wanted: team_data::RepoView,
    teams: Seq<RepoTeamView>,
    users: Seq<RepoUserView>,
)
    ensures
        forall|i: int|
            0 <= i < permission_requests(wanted, teams, users).len() ==> answers(
                #[trigger] permission_requests(wanted, teams, users)[i],
                ReplyView::Done,
            ),
{
    let all = permission_requests(wanted, teams, users);
    let a = team_grants(wanted).len();
    let b = user_grants(wanted).len();
    let c = stray_teams(wanted, teams).len();
    let d = stray_users(wanted, users).len();
    assert(all.len() == a + b + c + d);
    assert forall|i: int| 0 <= i < all.len() implies answers(
        #[trigger] all[i],
        ReplyView::Done,
    ) by {
        if i < a {
        } else if i < a + b {
        } else if i < a + b + c {
        } else {
        }
    }
}

/// How far the branches are, when the first `count` of them are done.
spec fn progress(wanted: team_data::RepoView, given: Answers, count: int) -> BranchProgressView {
    BranchProgressView {
        repo: given.repo(),
        stray: stray_protections(wanted, given.protected),
        head: if some_missing(given, count) {
            Some(given.head)
        } else {
            None
        },
        index: count,
    }
}

proof fn lemma_branch(
    run: SyncRunView,
    wanted: team_data::RepoView,
    given: Answers,
    index: int,
)
    requires
        run.repo() == wanted,
        0 <= index < wanted.branches.len(),
        run.stage == (SyncStageView::Branch { progress: progress(wanted, given, index) }),
    ensures
        follows(run, branch_part(wanted, given, index)),
        after(run, branch_part(wanted, given, index)) == run.at_branch(
            progress(wanted, given, index + 1),
        ),
{
    let org = given.repo().org;
    let repo = given.repo().name;
    let branch = wanted.branches[index].name;
    let look = (
        RequestView::Branch { org, repo, branch },
        ReplyView::Branch(given.branches[index]),
    );
    let ask = (
        RequestView::Branch { org, repo, branch: given.repo().default_branch },
        ReplyView::Branch(given.head),
    );
    let create = (
        RequestView::CreateBranch { org, repo, branch, commit: given.head->0 },
        ReplyView::Done,
    );
    let protect = (
        RequestView::UpdateBranchProtection {
            org,
            repo,
            branch,
            protection: wanted_protection(wanted, wanted.branches[index]),
        },
        ReplyView::ProtectionUpdated(given.updated[index]),
    );
    let missing = given.branches[index] is None;
    let known = some_missing(given, index);
    assert(some_missing(given, index + 1) <==> known || missing) by {
        if missing {
            assert(given.branches[index] is None);
        }
        if known {
            let i = choose|i: int| 0 <= i < index && #[trigger] given.branches[i] is None;
            assert(given.branches[i] is None);
        }
    }
    lemma_one(run, look.0, look.1);
    let looked = run.next(look.1);
    let talk_a = seq![look];
    let talk_b = if missing && !known {
        seq![ask]
    } else {
        Seq::empty()
    };
    let talk_c = if missing && given.head is Some {
        seq![create]
    } else {
        Seq::empty()
    };
    let talk_d = seq![protect];
    let asked = after(looked, talk_b);
    if missing && !known {
        lemma_one(looked, ask.0, ask.1);
    }
    assert(follows(looked, talk_b));
    let created = after(asked, talk_c);
    if missing && given.head is Some {
        lemma_one(asked, create.0, create.1);
    }
    assert(follows(asked, talk_c));
    lemma_follows_append(run, talk_a, talk_b);
    lemma_follows_append(run, talk_a + talk_b, talk_c);
    assert(created.stage == (SyncStageView::Protection {
        progress: BranchProgressView { index, ..progress(wanted, given, index + 1) },
    }));
    lemma_one(created, protect.0, protect.1);
    lemma_follows_append(run, talk_a + talk_b + talk_c, talk_d);
    assert(branch_part(wanted, given, index) =~= talk_a + talk_b + talk_c + talk_d);
}

proof fn lemma_branches(
    run: SyncRunView,
    wanted: team_data::RepoView,
    given: Answers,
    count: int,
)
    requires
        run.repo() == wanted,
        0 <= count <= wanted.branches.len(),
    ensures
        follows(run.at_branch(progress(wanted, given, 0)), branches_part(wanted, given, count)),
        after(run.at_branch(progress(wanted, given, 0)), branches_part(wanted, given, count))
            == run.at_branch(progress(wanted, given, count)),
    decreases count,
{
    if count > 0 {
        lemma_branches(run, wanted, given, count - 1);
        let first = branches_part(wanted, given, count - 1);
        let middle = run.at_branch(progress(wanted, given, count - 1));
        lemma_branch(middle, wanted, given, count - 1);
        lemma_follows_append(
            run.at_branch(progress(wanted, given, 0)),
            first,
            branch_part(wanted, given, count - 1),
        );
    }
}

proof fn lemma_removals(
    run: SyncRunView,
    repo: api::RepoView,
    stray: Seq<Seq<char>>,
    removed: int,
    requests: Seq<RequestView>,
)
    requires
        0 <= removed <= stray.len(),
        requests == stray.map_values(
            |branch: Seq<char>|
                RequestView::DeleteBranchProtection { org: repo.org, repo: repo.name, branch },
        ),
    ensures
        follows(run.at_removal(repo, stray, removed), done(requests.skip(removed))),
        after(run.at_removal(repo, stray, removed), done(requests.skip(removed))) == (SyncRunView {
            done: run.done + 1,
            ..run
        }).at_repo(),
    decreases stray.len() - removed,
{
    let talk = done(requests.skip(removed));
    if removed < stray.len() {
        let now = run.at_removal(repo, stray, removed);
        assert(talk[0] == (requests[removed], ReplyView::Done));
        assert(talk.drop_first() =~= done(requests.skip(removed + 1)));
        assert(now.next(ReplyView::Done) == run.at_removal(repo, stray, removed + 1));
        lemma_removals(run, repo, stray, removed + 1, requests);
    } else {
        assert(talk =~= Seq::empty());
    }
}

/// Synchronizing a repository makes exactly the calls that its conversation names, whatever
/// GitHub answers, and then goes on with the next repository.
pub proof fn law_synchronizing_a_repository(
    run: SyncRunView,
    wanted: team_data::RepoView,
    given: Answers,
)
    requires
        run.stage is Repo,
        0 <= run.done < run.sync.repos.len(),
        run.repo() == wanted,
    ensures
        follows(run, repo_conversation(wanted, given)),
        after(run, repo_conversation(wanted, given)) == (SyncRunView {
            done: run.done + 1,
            ..run
        }).at_repo(),
{
    let repo = given.repo();
    let requests = permission_requests(wanted, given.teams, given.users);
    let a = opening(wanted, given);
    lemma_opening(run, wanted, given);
    let run_a = after(run, a);
    let teams = (
        RequestView::RepoTeams { org: wanted.org, repo: wanted.name },
        ReplyView::RepoTeams(given.teams),
    );
    let users = (
        RequestView::RepoCollaborators { org: wanted.org, repo: wanted.name },
        ReplyView::RepoCollaborators(given.users),
    );
    lemma_one(run_a, teams.0, teams.1);
    let run_b = run_a.next(teams.1);
    lemma_one(run_b, users.0, users.1);
    let run_c = run_b.next(users.1);
    lemma_follows_append(run_a, seq![teams], seq![users]);
    lemma_permission_requests_done(wanted, given.teams, given.users);
    lemma_permissions(run_c, repo, requests, 0);
    assert(requests.skip(0) =~= requests);
    let run_d = after(run_c, done(requests));
    lemma_follows_append(run_a, seq![teams] + seq![users], done(requests));
    assert(access_part(wanted, given) =~= seq![teams] + seq![users] + done(requests));
    lemma_follows_append(run, a, access_part(wanted, given));
    let list = (
        RequestView::ProtectedBranches { org: repo.org, repo: repo.name },
        ReplyView::ProtectedBranches(given.protected),
    );
    lemma_one(run_d, list.0, list.1);
    let run_e = run_d.next(list.1);
    lemma_follows_append(run, a + access_part(wanted, given), seq![list]);
    assert(!some_missing(given, 0));
    let count = wanted.branches.len() as int;
    assert(run_e == run_d.at_branch(progress(wanted, given, 0)));
    lemma_branches(run_d, wanted, given, count);
    let b = branches_part(wanted, given, count);
    let run_f = after(run_e, b);
    let stray = stray_protections(wanted, given.protected);
    lemma_follows_append(run, a + access_part(wanted, given) + seq![list], b);
    assert(run_f == run_d.at_removal(repo, stray, 0));
    let removals = removal_requests(wanted, given);
    lemma_removals(run_d, repo, stray, 0, removals);
    assert(removals.skip(0) =~= removals);
    lemma_follows_append(run, a + access_part(wanted, given) + seq![list] + b, done(removals));
    assert(repo_conversation(wanted, given) =~= a + access_part(wanted, given) + seq![list] + b
        + done(removals));
}

proof fn lemma_conversation(sync: SyncGitHubView, given: spec_fn(int) -> Answers, count: int)
    requires
        0 <= count <= sync.repos.len(),
    ensures
        follows(start(sync), conversation(sync, given, count)),
        after(start(sync), conversation(sync, given, count)) == (SyncRunView {
            sync,
            done: count,
            stage: SyncStageView::Done,
        }).at_repo(),
    decreases count,
{
    if count > 0 {
        lemma_conversation(sync, given, count - 1);
        let first = conversation(sync, given, count - 1);
        let middle = after(start(sync), first);
        law_synchronizing_a_repository(middle, sync.repos[count - 1], given(count - 1));
        lemma_follows_append(
            start(sync),
            first,
            repo_conversation(sync.repos[count - 1], given(count - 1)),
        );
    }
}

/// A synchronization makes the calls of one repository after the other, in their order,
/// whatever GitHub answers, and then it ends.
pub proof fn law_synchronization(sync: SyncGitHubView, given: spec_fn(int) -> Answers)
    ensures
        follows(start(sync), conversation(sync, given, sync.repos.len() as int)),
        after(start(sync), conversation(sync, given, sync.repos.len() as int)).pending() is None,
{
    lemma_conversation(sync, given, sync.repos.len() as int);
}

} // verus!
