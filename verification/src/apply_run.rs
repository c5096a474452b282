//! Carrying out a diff, one call at a time.
//!
//! A run names the call that it waits for; handed the reply, it goes on to the next call. A
//! call that fails ends it.
use vstd::prelude::*;

use crate::apply::{
    new_branch_steps, repo_steps, sending, team_steps, ApplyStep, ApplyStepView,
};
use crate::call::{answers, Reply, ReplyView, Request, RequestView};
use crate::diff::{CreateRepoDiffView, Diff, DiffView, RepoDiffView, TeamDiffView};

verus! {

/// A diff that is being carried out.
pub struct ApplyRun {
    steps: Vec<ApplyStep>,
    sent: usize,
    default_branch: Option<String>,
    head: Option<String>,
    failed: bool,
}

pub struct ApplyRunView {
    pub steps: Seq<ApplyStepView>,
    /// The number of steps that are done.
    pub sent: int,
    /// The default branch of the repository that was created last.
    pub default_branch: Option<Seq<char>>,
    /// The head that was found last.
    pub head: Option<Seq<char>>,
    /// Whether a call failed.
    pub failed: bool,
}

impl DeepView for ApplyRun {
    type V = ApplyRunView;

    closed spec fn deep_view(&self) -> ApplyRunView {
        ApplyRunView {
            steps: self.steps.deep_view(),
            sent: self.sent as int,
            default_branch: self.default_branch.deep_view(),
            head: self.head.deep_view(),
            failed: self.failed,
        }
    }
}

/// Whether each step finds what it needs: no head is asked for before a repository was
/// created, and no branch is created before a head was found.
pub open spec fn ordered(steps: Seq<ApplyStepView>, created: bool, found: bool) -> bool
    decreases steps.len(),
{
    if steps.len() == 0 {
        true
    } else {
        match steps[0] {
            ApplyStepView::Send(request) => ordered(
                steps.drop_first(),
                created || request is CreateRepo,
                found,
            ),
            ApplyStepView::FindHead { .. } => created && ordered(
                steps.drop_first(),
                created,
                true,
            ),
            ApplyStepView::BranchAtHead { .. } => found && ordered(
                steps.drop_first(),
                created,
                found,
            ),
        }
    }
}

impl ApplyRunView {
    /// Whether the remaining steps find what they need.
    pub open spec fn wf(self) -> bool {
        &&& 0 <= self.sent <= self.steps.len()
        &&& ordered(
            self.steps.skip(self.sent),
            self.default_branch is Some,
            self.head is Some,
        )
    }

    /// The call that the run waits for.
    pub open spec fn pending(self) -> Option<RequestView> {
        if !self.failed && self.sent < self.steps.len() {
            Some(
                match self.steps[self.sent] {
                    ApplyStepView::Send(request) => request,
                    ApplyStepView::FindHead { org, repo } => RequestView::Branch {
                        org,
                        repo,
                        branch: self.default_branch->0,
                    },
                    ApplyStepView::BranchAtHead { org, repo, branch } => RequestView::CreateBranch {
                        org,
                        repo,
                        branch,
                        commit: self.head->0,
                    },
                },
            )
        } else {
            None
        }
    }

    /// Whether the run can go on with a reply: it answers the call, and the default branch is
    /// there when its head is asked for.
    pub open spec fn accepts(self, reply: ReplyView) -> bool {
        &&& self.pending() is Some
        &&& answers(self.pending()->0, reply)
        &&& self.steps[self.sent] is FindHead ==> reply->Branch_0 is Some
    }

    /// The run after a reply.
    pub open spec fn next(self, reply: ReplyView) -> ApplyRunView {
        ApplyRunView {
            steps: self.steps,
            sent: self.sent + 1,
            default_branch: match reply {
                ReplyView::CreatedRepo(repo) => Some(repo.default_branch),
                _ => self.default_branch,
            },
            head: match reply {
                ReplyView::Branch(Some(commit)) => Some(commit),
                _ => self.head,
            },
            failed: self.failed,
        }
    }

    /// The run after its call failed.
    pub open spec fn stopped(self) -> ApplyRunView {
        ApplyRunView { failed: true, ..self }
    }
}

/// The start of carrying out a diff.
pub open spec fn start(diff: DiffView) -> ApplyRunView {
    ApplyRunView {
        steps: diff.steps(),
        sent: 0,
        default_branch: None,
        head: None,
        failed: false,
    }
}

/// Steps that are in order stay so when more is known at their start.
proof fn lemma_ordered_monotone(
    steps: Seq<ApplyStepView>,
    created: bool,
    found: bool,
    more_created: bool,
    more_found: bool,
)
    requires
        ordered(steps, created, found),
        created ==> more_created,
        found ==> more_found,
    ensures
        ordered(steps, more_created, more_found),
    decreases steps.len(),
{
    if steps.len() > 0 {
        match steps[0] {
            ApplyStepView::Send(request) => {
                lemma_ordered_monotone(
                    steps.drop_first(),
                    created || request is CreateRepo,
                    found,
                    more_created || request is CreateRepo,
                    more_found,
                );
            },
            ApplyStepView::FindHead { .. } => {
                lemma_ordered_monotone(steps.drop_first(), created, true, more_created, true);
            },
            ApplyStepView::BranchAtHead { .. } => {
                lemma_ordered_monotone(
                    steps.drop_first(),
                    created,
                    found,
                    more_created,
                    more_found,
                );
            },
        }
    }
}

/// Whether some steps create a repository.
spec fn creates(steps: Seq<ApplyStepView>) -> bool {
    exists|i: int| 0 <= i < steps.len() && (#[trigger] steps[i] matches ApplyStepView::Send(request)
        && request is CreateRepo)
}

/// Whether some steps find a head.
spec fn finds(steps: Seq<ApplyStepView>) -> bool {
    exists|i: int| 0 <= i < steps.len() && #[trigger] steps[i] is FindHead
}

/// Steps in order, followed by steps that are in order given what the first ones leave.
proof fn lemma_ordered_append(
    a: Seq<ApplyStepView>,
    b: Seq<ApplyStepView>,
    created: bool,
    found: bool,
)
    requires
        ordered(a, created, found),
        ordered(b, created || creates(a), found || finds(a)),
    ensures
        ordered(a + b, created, found),
    decreases a.len(),
{
    if a.len() == 0 {
        assert(a + b =~= b);
        assert(!creates(a) && !finds(a));
    } else {
        let rest = a.drop_first();
        assert((a + b).drop_first() =~= rest + b);
        let now_created = created || (a[0] matches ApplyStepView::Send(request) && request
            is CreateRepo);
        let now_found = found || a[0] is FindHead;
        assert(ordered(b, now_created || creates(rest), now_found || finds(rest))) by {
            if creates(a) {
                let i = choose|i: int|
                    0 <= i < a.len() && (#[trigger] a[i] matches ApplyStepView::Send(request)
                        && request is CreateRepo);
                if i > 0 {
                    assert(rest[i - 1] == a[i]);
                }
            }
            if finds(a) {
                let i = choose|i: int| 0 <= i < a.len() && #[trigger] a[i] is FindHead;
                if i > 0 {
                    assert(rest[i - 1] == a[i]);
                }
            }
            lemma_ordered_monotone(
                b,
                created || creates(a),
                found || finds(a),
                now_created || creates(rest),
                now_found || finds(rest),
            );
        }
        lemma_ordered_append(rest, b, now_created, now_found);
    }
}

/// Steps that only make calls are in order.
proof fn lemma_sending_ordered(requests: Seq<RequestView>)
    ensures
        ordered(sending(requests), false, false),
    decreases requests.len(),
{
    if requests.len() > 0 {
        lemma_sending_ordered(requests.drop_first());
        assert(sending(requests).drop_first() =~= sending(requests.drop_first()));
        lemma_ordered_monotone(
            sending(requests.drop_first()),
            false,
            false,
            requests[0] is CreateRepo,
            false,
        );
    }
}

/// The steps for new branches are in order once a head was found.
proof fn lemma_new_branches_ordered(
    org: Seq<char>,
    repo: Seq<char>,
    protections: Seq<(Seq<char>, crate::api::BranchProtectionView)>,
)
    ensures
        ordered(new_branch_steps(org, repo, protections), false, true),
    decreases protections.len(),
{
    if protections.len() > 0 {
        lemma_new_branches_ordered(org, repo, protections.drop_last());
        let branch = protections.last().0;
        let protection = protections.last().1;
        let send = ApplyStepView::Send(
            RequestView::UpdateBranchProtection { org, repo, branch, protection },
        );
        let last = seq![ApplyStepView::BranchAtHead { org, repo, branch }, send];
        assert(last.drop_first() =~= seq![send]);
        assert(seq![send].drop_first() =~= Seq::empty());
        assert(ordered(Seq::<ApplyStepView>::empty(), false, true));
        assert(ordered(seq![send], false, true));
        assert(ordered(last, false, true));
        let earlier = new_branch_steps(org, repo, protections.drop_last());
        lemma_ordered_monotone(last, false, true, creates(earlier), true);
        lemma_ordered_append(earlier, last, false, true);
    }
}

/// The steps that create a repository are in order.
proof fn lemma_create_ordered(create: CreateRepoDiffView)
    ensures
        ordered(create.steps(), false, false),
{
    let first = seq![
        ApplyStepView::Send(
            RequestView::CreateRepo {
                org: create.org,
                name: create.name,
                description: create.description,
            },
        ),
    ];
    let access = sending(create.permission_requests());
    let find = seq![ApplyStepView::FindHead { org: create.org, repo: create.name }];
    let branches = new_branch_steps(create.org, create.name, create.branch_protections);
    assert(first.drop_first() =~= Seq::empty());
    assert(ordered(Seq::<ApplyStepView>::empty(), true, false));
    assert(ordered(first, false, false));
    assert(first[0] matches ApplyStepView::Send(request) && request is CreateRepo);
    assert(creates(first));
    lemma_sending_ordered(create.permission_requests());
    lemma_ordered_monotone(access, false, false, true, finds(first));
    lemma_ordered_append(first, access, false, false);
    let opening = first + access;
    assert(opening[0] == first[0]);
    assert(creates(opening));
    assert(find.drop_first() =~= Seq::empty());
    assert(ordered(Seq::<ApplyStepView>::empty(), true, true));
    assert(ordered(find, true, finds(opening)));
    lemma_ordered_append(opening, find, false, false);
    let found = opening + find;
    assert(found[found.len() - 1] is FindHead);
    assert(finds(found));
    lemma_new_branches_ordered(create.org, create.name, create.branch_protections);
    lemma_ordered_monotone(branches, false, true, creates(found), true);
    lemma_ordered_append(found, branches, false, false);
    assert(create.steps() =~= found + branches);
}

proof fn lemma_repo_steps_ordered(diffs: Seq<RepoDiffView>)
    ensures
        ordered(repo_steps(diffs), false, false),
    decreases diffs.len(),
{
    if diffs.len() > 0 {
        lemma_repo_steps_ordered(diffs.drop_last());
        match diffs.last() {
            RepoDiffView::Create(create) => {
                lemma_create_ordered(create);
            },
            RepoDiffView::Update(update) => {
                lemma_sending_ordered(update.requests());
            },
        }
        let earlier = repo_steps(diffs.drop_last());
        let last = diffs.last().steps();
        lemma_ordered_monotone(last, false, false, creates(earlier), finds(earlier));
        lemma_ordered_append(earlier, last, false, false);
    }
}

proof fn lemma_team_steps_ordered(diffs: Seq<TeamDiffView>)
    ensures
        ordered(team_steps(diffs), false, false),
    decreases diffs.len(),
{
    if diffs.len() > 0 {
        lemma_team_steps_ordered(diffs.drop_last());
        lemma_sending_ordered(diffs.last().requests());
        let earlier = team_steps(diffs.drop_last());
        let last = sending(diffs.last().requests());
        lemma_ordered_monotone(last, false, false, creates(earlier), finds(earlier));
        lemma_ordered_append(earlier, last, false, false);
    }
}

/// In the steps that carry out a diff, no head is asked for before a repository was created,
/// and no branch is created before a head was found.
pub proof fn law_steps_are_ordered(diff: DiffView)
    ensures
        ordered(diff.steps(), false, false),
{
    lemma_team_steps_ordered(diff.team_diffs);
    lemma_repo_steps_ordered(diff.repo_diffs);
    let teams = team_steps(diff.team_diffs);
    let repos = repo_steps(diff.repo_diffs);
    lemma_ordered_monotone(repos, false, false, creates(teams), finds(teams));
    lemma_ordered_append(teams, repos, false, false);
}

impl Diff {
    /// Starts to carry out the diff.
    pub fn apply(&self) -> (run: ApplyRun)
        ensures
            run.inv(),
            run.deep_view() == start(self.deep_view()),
    {
        let steps = self.steps();
        proof {
            law_steps_are_ordered(self.deep_view());
            assert(self.deep_view().steps().skip(0) =~= self.deep_view().steps());
        }
        ApplyRun { steps, sent: 0, default_branch: None, head: None, failed: false }
    }
}

impl ApplyRun {
    /// The invariant of a run: the remaining steps find what they need.
    pub closed spec fn inv(&self) -> bool {
        self.deep_view().wf()
    }

    /// Gives the call that the run waits for; none if the diff is carried out or
    /// a call failed.
    pub fn request(&self) -> (request: Option<Request>)
        requires
            self.inv(),
        ensures
            request.deep_view() == self.deep_view().pending(),
    {
        if self.failed || self.sent >= self.steps.len() {
            return None;
        }
        let ghost view = self.deep_view();
        assert(view.steps.skip(view.sent)[0] == view.steps[view.sent]);
        match &self.steps[self.sent] {
            ApplyStep::Send(request) => Some(request.clone()),
            ApplyStep::FindHead { org, repo } => match &self.default_branch {
                Some(branch) => Some(
                    Request::Branch {
                        org: org.clone(),
                        repo: repo.clone(),
                        branch: branch.clone(),
                    },
                ),
                None => {
                    assert(false);
                    None
                },
            },
            ApplyStep::BranchAtHead { org, repo, branch } => match &self.head {
                Some(commit) => Some(
                    Request::CreateBranch {
                        org: org.clone(),
                        repo: repo.clone(),
                        branch: branch.clone(),
                        commit: commit.clone(),
                    },
                ),
                None => {
                    assert(false);
                    None
                },
            },
        }
    }

    /// Tells whether the run can go on with a reply.
    pub fn accepts(&self, reply: &Reply) -> (fitting: bool)
        requires
            self.inv(),
        ensures
            fitting == self.deep_view().accepts(reply.deep_view()),
    {
        let request = match self.request() {
            Some(request) => request,
            None => {
                return false;
            },
        };
        if !reply.answers(&request) {
            return false;
        }
        match &self.steps[self.sent] {
            ApplyStep::FindHead { .. } => matches!(reply, Reply::Branch(Some(_))),
            _ => true,
        }
    }

    /// Goes on with the reply to the call that the run waits for.
    pub fn advance(&mut self, reply: Reply)
        requires
            old(self).inv(),
            old(self).deep_view().accepts(reply.deep_view()),
        ensures
            final(self).inv(),
            final(self).deep_view() == old(self).deep_view().next(reply.deep_view()),
    {
        let ghost view = self.deep_view();
        proof {
            let left = view.steps.skip(view.sent);
            assert(left[0] == view.steps[view.sent]);
            assert(left.drop_first() =~= view.steps.skip(view.sent + 1));
            if ordered(left.drop_first(), view.default_branch is Some, view.head is Some) {
                lemma_ordered_monotone(
                    left.drop_first(),
                    view.default_branch is Some,
                    view.head is Some,
                    view.next(reply.deep_view()).default_branch is Some,
                    view.next(reply.deep_view()).head is Some,
                );
            }
        }
        match reply {
            Reply::CreatedRepo(repo) => {
                self.default_branch = Some(repo.default_branch);
            },
            Reply::Branch(Some(commit)) => {
                self.head = Some(commit);
            },
            _ => {},
        }
        assert(self.sent < self.steps.len());
        self.sent = self.sent + 1;
    }

    /// Goes on with what came of the call that the run waits for. Where the call failed, the run
    /// is over: its error is handed back, and no call follows.
    pub fn resume<E>(&mut self, outcome: Result<Reply, E>) -> (result: Result<(), E>)
        requires
            old(self).inv(),
            old(self).deep_view().pending() is Some,
            outcome matches Ok(reply) ==> old(self).deep_view().accepts(reply.deep_view()),
        ensures
            final(self).inv(),
            match outcome {
                Ok(reply) => {
                    &&& result == Ok::<(), E>(())
                    &&& final(self).deep_view() == old(self).deep_view().next(reply.deep_view())
                },
                Err(error) => {
                    &&& result == Err::<(), E>(error)
                    &&& final(self).deep_view() == old(self).deep_view().stopped()
                    &&& final(self).deep_view().pending() is None
                },
            },
    {
        match outcome {
            Ok(reply) => {
                self.advance(reply);
                Ok(())
            },
            Err(error) => {
                self.failed = true;
                Err(error)
            },
        }
    }
}

} // verus!
