//! Laws about carrying out a diff: which calls are made, in which order.
use vstd::prelude::*;

use crate::api::{BranchProtectionView, RepoView};
use crate::apply::{
    member_requests, new_branch_steps, protection_requests, repo_steps, sending, team_steps,
    ApplyStepView,
};
use crate::apply_run::{start, ApplyRunView};
use crate::call::{answers, ReplyView, RequestView};
use crate::diff::{
    BranchProtectionDiffView, CreateRepoDiffView, DiffView, MemberDiff, RepoDiffView, TeamDiffView,
    UpdateRepoDiffView,
};

verus! {

/// Whether a run makes exactly the calls of a conversation, when it is given the replies of it.
pub open spec fn follows(run: ApplyRunView, conversation: Seq<(RequestView, ReplyView)>) -> bool
    decreases conversation.len(),
{
    conversation.len() == 0 || {
        &&& run.pending() == Some(conversation[0].0)
        &&& run.accepts(conversation[0].1)
        &&& follows(run.next(conversation[0].1), conversation.drop_first())
    }
}

/// The run after a conversation.
pub open spec fn after(
    run: ApplyRunView,
    conversation: Seq<(RequestView, ReplyView)>,
) -> ApplyRunView
    decreases conversation.len(),
{
    if conversation.len() == 0 {
        run
    } else {
        after(run.next(conversation[0].1), conversation.drop_first())
    }
}

/// The reply to a call that changes something and finds nothing out. Where a protection is
/// set, `updated` tells whether the branch was there.
pub open spec fn confirmation(
    request: RequestView,
    updated: spec_fn(RequestView) -> bool,
) -> ReplyView {
    if request is UpdateBranchProtection {
        ReplyView::ProtectionUpdated(updated(request))
    } else {
        ReplyView::Done
    }
}

/// Some calls that are confirmed one after the other.
pub open spec fn confirmed(
    requests: Seq<RequestView>,
    updated: spec_fn(RequestView) -> bool,
) -> Seq<(RequestView, ReplyView)> {
    requests.map_values(|request: RequestView| (request, confirmation(request, updated)))
}

/// The calls that create branches at a commit and protect them.
pub open spec fn branch_requests(
    org: Seq<char>,
    repo: Seq<char>,
    protections: Seq<(Seq<char>, BranchProtectionView)>,
    commit: Seq<char>,
) -> Seq<RequestView>
    decreases protections.len(),
{
    if protections.len() == 0 {
        Seq::empty()
    } else {
        let branch = protections.last().0;
        let protection = protections.last().1;
        branch_requests(org, repo, protections.drop_last(), commit) + seq![
            RequestView::CreateBranch { org, repo, branch, commit },
            RequestView::UpdateBranchProtection { org, repo, branch, protection },
        ]
    }
}

/// The conversation that creates a repository: it is created, which gives `repo`; access to it
/// is given; the head of its default branch is asked for, which is at `head`; and its branches
/// are created there and protected.
pub open spec fn creation(
    create: CreateRepoDiffView,
    repo: RepoView,
    head: Seq<char>,
    updated: spec_fn(RequestView) -> bool,
) -> Seq<(RequestView, ReplyView)> {
    seq![
        (
            RequestView::CreateRepo {
                org: create.org,
                name: create.name,
                description: create.description,
            },
            ReplyView::CreatedRepo(repo),
        ),
    ] + confirmed(create.permission_requests(), updated) + seq![
        (
            RequestView::Branch {
                org: create.org,
                repo: create.name,
                branch: repo.default_branch,
            },
            ReplyView::Branch(Some(head)),
        ),
    ] + confirmed(
        branch_requests(create.org, create.name, create.branch_protections, head),
        updated,
    )
}

/// The conversation that carries out the change of a repository.
pub open spec fn repo_conversation(
    diff: RepoDiffView,
    repo: RepoView,
    head: Seq<char>,
    updated: spec_fn(RequestView) -> bool,
) -> Seq<(RequestView, ReplyView)> {
    match diff {
        RepoDiffView::Create(create) => creation(create, repo, head, updated),
        RepoDiffView::Update(update) => confirmed(update.requests(), updated),
    }
}

/// The conversation that carries out the changes of some repositories.
pub open spec fn repos_conversation(
    diffs: Seq<RepoDiffView>,
    created: spec_fn(int) -> (RepoView, Seq<char>),
    updated: spec_fn(RequestView) -> bool,
) -> Seq<(RequestView, ReplyView)>
    decreases diffs.len(),
{
    if diffs.len() == 0 {
        Seq::empty()
    } else {
        let last = created(diffs.len() - 1);
        repos_conversation(diffs.drop_last(), created, updated) + repo_conversation(
            diffs.last(),
            last.0,
            last.1,
            updated,
        )
    }
}

/// The conversation that carries out the changes of some teams.
pub open spec fn teams_conversation(
    diffs: Seq<TeamDiffView>,
    updated: spec_fn(RequestView) -> bool,
) -> Seq<(RequestView, ReplyView)>
    decreases diffs.len(),
{
    if diffs.len() == 0 {
        Seq::empty()
    } else {
        teams_conversation(diffs.drop_last(), updated) + confirmed(diffs.last().requests(), updated)
    }
}

/// The conversation that carries out a diff: the teams, then the repositories. `created` tells
/// of each repository diff, by its place, what creating the repository gives and the commit
/// at the head of its default branch.
pub open spec fn conversation(
    diff: DiffView,
    created: spec_fn(int) -> (RepoView, Seq<char>),
    updated: spec_fn(RequestView) -> bool,
) -> Seq<(RequestView, ReplyView)> {
    teams_conversation(diff.team_diffs, updated) + repos_conversation(
        diff.repo_diffs,
        created,
        updated,
    )
}

proof fn lemma_follows_append(
    run: ApplyRunView,
    a: Seq<(RequestView, ReplyView)>,
    b: Seq<(RequestView, ReplyView)>,
)
    requires
        follows(run, a),
        follows(after(run, a), b),
    ensures
        follows(run, a + b),
        after(run, a + b) == after(after(run, a), b),
    decreases a.len(),
{
    if a.len() == 0 {
        assert(a + b =~= b);
    } else {
        assert((a + b).drop_first() =~= a.drop_first() + b);
        lemma_follows_append(run.next(a[0].1), a.drop_first(), b);
    }
}

/// Whether the next steps of a run are the given ones.
spec fn next_steps(run: ApplyRunView, steps: Seq<ApplyStepView>) -> bool {
    &&& !run.failed
    &&& 0 <= run.sent
    &&& run.sent + steps.len() <= run.steps.len()
    &&& forall|i: int| 0 <= i < steps.len() ==> #[trigger] steps[i] == run.steps[run.sent + i]
}

/// Whether a call changes something and finds nothing out.
spec fn plain(request: RequestView) -> bool {
    answers(request, confirmation(request, |request: RequestView| true)) && !(request
        is CreateRepo)
}

/// Steps that only make plain calls are confirmed one after the other.
proof fn lemma_sending(
    run: ApplyRunView,
    requests: Seq<RequestView>,
    updated: spec_fn(RequestView) -> bool,
)
    requires
        next_steps(run, sending(requests)),
        forall|i: int| 0 <= i < requests.len() ==> plain(#[trigger] requests[i]),
    ensures
        follows(run, confirmed(requests, updated)),
        after(run, confirmed(requests, updated)) == (ApplyRunView {
            sent: run.sent + requests.len(),
            ..run
        }),
    decreases requests.len(),
{
    let talk = confirmed(requests, updated);
    if requests.len() > 0 {
        let first = requests[0];
        let rest = requests.drop_first();
        assert(plain(requests[0]));
        assert(sending(requests)[0] == run.steps[run.sent + 0]);
        assert(talk[0] == (first, confirmation(first, updated)));
        let next = run.next(talk[0].1);
        assert(talk.drop_first() =~= confirmed(rest, updated));
        assert forall|i: int| 0 <= i < sending(rest).len() implies #[trigger] sending(rest)[i]
            == next.steps[next.sent + i] by {
            assert(sending(requests)[i + 1] == run.steps[run.sent + (i + 1)]);
        }
        assert forall|i: int| 0 <= i < rest.len() implies plain(#[trigger] rest[i]) by {
            assert(rest[i] == requests[i + 1]);
        }
        assert(run.pending() == Some(first));
        lemma_sending(next, rest, updated);
    }
}

/// The next steps of a run, in two parts.
proof fn lemma_split(run: ApplyRunView, a: Seq<ApplyStepView>, b: Seq<ApplyStepView>)
    requires
        next_steps(run, a + b),
    ensures
        next_steps(run, a),
        next_steps(ApplyRunView { sent: run.sent + a.len(), ..run }, b),
{
    assert forall|i: int| 0 <= i < a.len() implies #[trigger] a[i] == run.steps[run.sent + i] by {
        assert((a + b)[i] == a[i]);
    }
    assert forall|i: int| 0 <= i < b.len() implies #[trigger] b[i] == run.steps[run.sent + a.len()
        + i] by {
        assert((a + b)[a.len() + i] == b[i]);
    }
}

/// The steps for new branches are carried out at the head that was found.
proof fn lemma_new_branches(
    run: ApplyRunView,
    org: Seq<char>,
    repo: Seq<char>,
    protections: Seq<(Seq<char>, BranchProtectionView)>,
    head: Seq<char>,
    updated: spec_fn(RequestView) -> bool,
)
    requires
        next_steps(run, new_branch_steps(org, repo, protections)),
        run.head == Some(head),
    ensures
        follows(run, confirmed(branch_requests(org, repo, protections, head), updated)),
        after(run, confirmed(branch_requests(org, repo, protections, head), updated)) == (
        ApplyRunView {
            sent: run.sent + new_branch_steps(org, repo, protections).len(),
            ..run
        }),
    decreases protections.len(),
{
    let talk = confirmed(branch_requests(org, repo, protections, head), updated);
    if protections.len() > 0 {
        let earlier = protections.drop_last();
        let branch = protections.last().0;
        let protection = protections.last().1;
        let create = RequestView::CreateBranch { org, repo, branch, commit: head };
        let protect = RequestView::UpdateBranchProtection { org, repo, branch, protection };
        let last_steps = seq![
            ApplyStepView::BranchAtHead { org, repo, branch },
            ApplyStepView::Send(protect),
        ];
        let first_steps = new_branch_steps(org, repo, earlier);
        lemma_split(run, first_steps, last_steps);
        lemma_new_branches(run, org, repo, earlier, head, updated);
        let first_talk = confirmed(branch_requests(org, repo, earlier, head), updated);
        let middle = after(run, first_talk);
        let last_talk = seq![
            (create, ReplyView::Done),
            (protect, ReplyView::ProtectionUpdated(updated(protect))),
        ];
        assert(talk =~= first_talk + last_talk);
        assert(last_steps[0] == middle.steps[middle.sent + 0]);
        assert(last_steps[1] == middle.steps[middle.sent + 1]);
        let created = middle.next(ReplyView::Done);
        let rest = last_talk.drop_first();
        assert(rest =~= seq![last_talk[1]]);
        assert(rest.drop_first() =~= Seq::empty());
        assert(created.pending() == Some(protect));
        let ended = created.next(last_talk[1].1);
        assert(follows(ended, rest.drop_first()));
        assert(after(ended, rest.drop_first()) == ended);
        assert(follows(created, rest));
        assert(after(created, rest) == ended);
        assert(middle.pending() == Some(create));
        assert(follows(middle, last_talk));
        lemma_follows_append(run, first_talk, last_talk);
    }
}

proof fn lemma_creation(
    run: ApplyRunView,
    create: CreateRepoDiffView,
    repo: RepoView,
    head: Seq<char>,
    updated: spec_fn(RequestView) -> bool,
)
    requires
        next_steps(run, create.steps()),
    ensures
        follows(run, creation(create, repo, head, updated)),
        after(run, creation(create, repo, head, updated)) == (ApplyRunView {
            sent: run.sent + create.steps().len(),
            default_branch: Some(repo.default_branch),
            head: Some(head),
            ..run
        }),
{
    let make = RequestView::CreateRepo {
        org: create.org,
        name: create.name,
        description: create.description,
    };
    let ask = RequestView::Branch {
        org: create.org,
        repo: create.name,
        branch: repo.default_branch,
    };
    let steps_a = seq![ApplyStepView::Send(make)];
    let steps_b = sending(create.permission_requests());
    let steps_c = seq![ApplyStepView::FindHead { org: create.org, repo: create.name }];
    let steps_d = new_branch_steps(create.org, create.name, create.branch_protections);
    let talk_a = seq![(make, ReplyView::CreatedRepo(repo))];
    let talk_b = confirmed(create.permission_requests(), updated);
    let talk_c = seq![(ask, ReplyView::Branch(Some(head)))];
    let talk_d = confirmed(
        branch_requests(create.org, create.name, create.branch_protections, head),
        updated,
    );
    lemma_split(run, steps_a + steps_b + steps_c, steps_d);
    lemma_split(run, steps_a + steps_b, steps_c);
    lemma_split(run, steps_a, steps_b);
    assert(steps_a[0] == run.steps[run.sent + 0]);
    assert(run.pending() == Some(make));
    assert(talk_a.drop_first() =~= Seq::empty());
    let run_b = run.next(talk_a[0].1);
    assert(follows(run_b, talk_a.drop_first()));
    assert(after(run_b, talk_a.drop_first()) == run_b);
    assert(follows(run, talk_a));
    assert(after(run, talk_a) == run_b);
    assert forall|i: int| 0 <= i < steps_b.len() implies #[trigger] steps_b[i]
        == run_b.steps[run_b.sent + i] by {
        assert(steps_b[i] == run.steps[run.sent + 1 + i]);
    }
    assert forall|i: int| 0 <= i < create.permission_requests().len() implies plain(
        #[trigger] create.permission_requests()[i],
    ) by {}
    lemma_sending(run_b, create.permission_requests(), updated);
    let run_c = after(run_b, talk_b);
    lemma_follows_append(run, talk_a, talk_b);
    assert(steps_c[0] == run.steps[run.sent + (steps_a + steps_b).len() + 0]);
    assert(run_c.sent == run.sent + (steps_a + steps_b).len());
    assert(run_c.pending() == Some(ask));
    assert(talk_c.drop_first() =~= Seq::empty());
    let run_d = run_c.next(talk_c[0].1);
    assert(follows(run_d, talk_c.drop_first()));
    assert(after(run_d, talk_c.drop_first()) == run_d);
    assert(follows(run_c, talk_c));
    assert(after(run_c, talk_c) == run_d);
    lemma_follows_append(run, talk_a + talk_b, talk_c);
    assert forall|i: int| 0 <= i < steps_d.len() implies #[trigger] steps_d[i]
        == run_d.steps[run_d.sent + i] by {
        assert(steps_d[i] == run.steps[run.sent + (steps_a + steps_b + steps_c).len() + i]);
    }
    lemma_new_branches(run_d, create.org, create.name, create.branch_protections, head, updated);
    lemma_follows_append(run, talk_a + talk_b + talk_c, talk_d);
    assert(creation(create, repo, head, updated) =~= talk_a + talk_b + talk_c + talk_d);
}

proof fn lemma_protection_requests_plain(
    org: Seq<char>,
    repo: Seq<char>,
    diffs: Seq<BranchProtectionDiffView>,
)
    ensures
        forall|i: int|
            0 <= i < protection_requests(org, repo, diffs).len() ==> plain(
                #[trigger] protection_requests(org, repo, diffs)[i],
            ),
    decreases diffs.len(),
{
    if diffs.len() > 0 {
        lemma_protection_requests_plain(org, repo, diffs.drop_last());
        let all = protection_requests(org, repo, diffs);
        let earlier = protection_requests(org, repo, diffs.drop_last());
        assert forall|i: int| 0 <= i < all.len() implies plain(#[trigger] all[i]) by {
            if i < earlier.len() {
                assert(all[i] == earlier[i]);
            } else {
                assert(all[i] == diffs.last().requests(org, repo)[i - earlier.len()]);
            }
        }
    }
}

proof fn lemma_update_requests_plain(update: UpdateRepoDiffView)
    ensures
        forall|i: int|
            0 <= i < update.requests().len() ==> plain(#[trigger] update.requests()[i]),
{
    lemma_protection_requests_plain(update.org, update.name, update.branch_protection_diffs);
    let all = update.requests();
    let protections = protection_requests(
        update.org,
        update.name,
        update.branch_protection_diffs,
    );
    let first = all.len() - protections.len();
    assert forall|i: int| 0 <= i < all.len() implies plain(#[trigger] all[i]) by {
        if i >= first {
            assert(all[i] == protections[i - first]);
        }
    }
}

proof fn lemma_member_requests_plain(
    org: Seq<char>,
    team: Seq<char>,
    diffs: Seq<(Seq<char>, MemberDiff)>,
)
    ensures
        forall|i: int|
            0 <= i < member_requests(org, team, diffs).len() ==> plain(
                #[trigger] member_requests(org, team, diffs)[i],
            ),
    decreases diffs.len(),
{
    if diffs.len() > 0 {
        lemma_member_requests_plain(org, team, diffs.drop_last());
        let all = member_requests(org, team, diffs);
        let earlier = member_requests(org, team, diffs.drop_last());
        assert forall|i: int| 0 <= i < all.len() implies plain(#[trigger] all[i]) by {
            if i < earlier.len() {
                assert(all[i] == earlier[i]);
            }
        }
    }
}

proof fn lemma_team_requests_plain(diff: TeamDiffView)
    ensures
        forall|i: int| 0 <= i < diff.requests().len() ==> plain(#[trigger] diff.requests()[i]),
{
    let all = diff.requests();
    match diff {
        TeamDiffView::Create(create) => {
            assert forall|i: int| 0 <= i < all.len() implies plain(#[trigger] all[i]) by {}
        },
        TeamDiffView::Edit(edit) => {
            lemma_member_requests_plain(edit.org, edit.name, edit.member_diffs);
            let members = member_requests(edit.org, edit.name, edit.member_diffs);
            assert forall|i: int| 0 <= i < all.len() implies plain(#[trigger] all[i]) by {
                if i > 0 {
                    assert(all[i] == members[i - 1]);
                }
            }
        },
        TeamDiffView::Delete(delete) => {
            assert forall|i: int| 0 <= i < all.len() implies plain(#[trigger] all[i]) by {}
        },
    }
}

proof fn lemma_teams(
    run: ApplyRunView,
    diffs: Seq<TeamDiffView>,
    updated: spec_fn(RequestView) -> bool,
)
    requires
        next_steps(run, team_steps(diffs)),
    ensures
        follows(run, teams_conversation(diffs, updated)),
        after(run, teams_conversation(diffs, updated)) == (ApplyRunView {
            sent: run.sent + team_steps(diffs).len(),
            ..run
        }),
    decreases diffs.len(),
{
    if diffs.len() > 0 {
        let earlier = diffs.drop_last();
        let requests = diffs.last().requests();
        lemma_split(run, team_steps(earlier), sending(requests));
        lemma_teams(run, earlier, updated);
        lemma_team_requests_plain(diffs.last());
        let middle = after(run, teams_conversation(earlier, updated));
        lemma_sending(middle, requests, updated);
        lemma_follows_append(
            run,
            teams_conversation(earlier, updated),
            confirmed(requests, updated),
        );
    }
}

proof fn lemma_repos(
    run: ApplyRunView,
    diffs: Seq<RepoDiffView>,
    created: spec_fn(int) -> (RepoView, Seq<char>),
    updated: spec_fn(RequestView) -> bool,
)
    requires
        next_steps(run, repo_steps(diffs)),
    ensures
        follows(run, repos_conversation(diffs, created, updated)),
        ({
            let ended = after(run, repos_conversation(diffs, created, updated));
            &&& ended.steps == run.steps
            &&& ended.sent == run.sent + repo_steps(diffs).len()
            &&& !ended.failed
        }),
    decreases diffs.len(),
{
    if diffs.len() > 0 {
        let earlier = diffs.drop_last();
        let last = created(diffs.len() - 1);
        lemma_split(run, repo_steps(earlier), diffs.last().steps());
        lemma_repos(run, earlier, created, updated);
        let middle = after(run, repos_conversation(earlier, created, updated));
        assert forall|i: int| 0 <= i < diffs.last().steps().len() implies #[trigger]
            diffs.last().steps()[i] == middle.steps[middle.sent + i] by {}
        match diffs.last() {
            RepoDiffView::Create(create) => {
                lemma_creation(middle, create, last.0, last.1, updated);
            },
            RepoDiffView::Update(update) => {
                lemma_update_requests_plain(update);
                lemma_sending(middle, update.requests(), updated);
            },
        }
        lemma_follows_append(
            run,
            repos_conversation(earlier, created, updated),
            repo_conversation(diffs.last(), last.0, last.1, updated),
        );
    }
}

/// Carrying out a diff makes exactly the calls that its team diffs need, in their order, then
/// those that its repository diffs need, in their order, and then it ends; whatever the
/// created repositories are like, wherever their heads are, and whichever protections could
/// be set.
pub proof fn law_apply_makes_the_calls_of_the_diff(
    diff: DiffView,
    created: spec_fn(int) -> (RepoView, Seq<char>),
    updated: spec_fn(RequestView) -> bool,
)
    ensures
        follows(start(diff), conversation(diff, created, updated)),
        after(start(diff), conversation(diff, created, updated)).pending() is None,
{
    let run = start(diff);
    let teams = team_steps(diff.team_diffs);
    let repos = repo_steps(diff.repo_diffs);
    assert(next_steps(run, teams + repos));
    lemma_split(run, teams, repos);
    lemma_teams(run, diff.team_diffs, updated);
    let middle = after(run, teams_conversation(diff.team_diffs, updated));
    lemma_repos(middle, diff.repo_diffs, created, updated);
    lemma_follows_append(
        run,
        teams_conversation(diff.team_diffs, updated),
        repos_conversation(diff.repo_diffs, created, updated),
    );
}

} // verus!
