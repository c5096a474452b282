//! Laws about failed calls: the first one ends a run, and its error is the result.
use vstd::prelude::*;

use crate::api::RepoView;
use crate::apply_run::{self, ApplyRunView};
use crate::call::{ReplyView, RequestView};
use crate::diff::{DiffView, RepoDiffView, UpdateRepoDiffView};
use crate::diff_run::{self, DiffRunView, DiffStageView};
use crate::law_apply::{confirmed, law_apply_makes_the_calls_of_the_diff};
use crate::law_converge::requests_of;
use crate::law_diff::{
    answering, difference, head_known, law_comparing_finds_the_difference, leads, listings_there,
};
use crate::law_repos::law_noop_update_makes_no_call;
use crate::law_sync::{law_synchronization, Answers};
use crate::sync::{github_teams, SyncGitHubView};
use crate::sync_run::{self, SyncRunView};
use crate::teams::members_known;
use crate::{law_apply, law_sync};

verus! {

/// A run as far as its calls go.
pub trait Run: Sized {
    /// The call that the run waits for.
    spec fn call(self) -> Option<RequestView>;

    /// Whether the run can go on with a reply.
    spec fn can_take(self, reply: ReplyView) -> bool;

    /// The run after a reply.
    spec fn given(self, reply: ReplyView) -> Self;

    /// The run after its call failed.
    spec fn failed(self) -> Self;
}

impl Run for DiffRunView {
    open spec fn call(self) -> Option<RequestView> {
        self.pending()
    }

    open spec fn can_take(self, reply: ReplyView) -> bool {
        self.accepts(reply)
    }

    open spec fn given(self, reply: ReplyView) -> Self {
        self.next(reply)
    }

    open spec fn failed(self) -> Self {
        self.stopped()
    }
}

impl Run for SyncRunView {
    open spec fn call(self) -> Option<RequestView> {
        self.pending()
    }

    open spec fn can_take(self, reply: ReplyView) -> bool {
        self.accepts(reply)
    }

    open spec fn given(self, reply: ReplyView) -> Self {
        self.next(reply)
    }

    open spec fn failed(self) -> Self {
        self.stopped()
    }
}

impl Run for ApplyRunView {
    open spec fn call(self) -> Option<RequestView> {
        self.pending()
    }

    open spec fn can_take(self, reply: ReplyView) -> bool {
        self.accepts(reply)
    }

    open spec fn given(self, reply: ReplyView) -> Self {
        self.next(reply)
    }

    open spec fn failed(self) -> Self {
        self.stopped()
    }
}

/// The run after what came of its call.
pub open spec fn resumed<R: Run, E>(run: R, outcome: Result<ReplyView, E>) -> R {
    match outcome {
        Ok(reply) => run.given(reply),
        Err(_) => run.failed(),
    }
}

/// The calls that a run makes while `outcomes` tells what comes of them, one after the other.
pub open spec fn calls_made<R: Run, E>(
    run: R,
    outcomes: Seq<Result<ReplyView, E>>,
) -> Seq<RequestView>
    decreases outcomes.len(),
{
    if outcomes.len() == 0 || run.call() is None {
        Seq::empty()
    } else {
        seq![run.call()->0] + calls_made(resumed(run, outcomes[0]), outcomes.drop_first())
    }
}

/// The error that is handed back while `outcomes` tells what comes of the calls: that of the
/// first call that failed; none if no call failed.
pub open spec fn error_of<R: Run, E>(run: R, outcomes: Seq<Result<ReplyView, E>>) -> Option<E>
    decreases outcomes.len(),
{
    if outcomes.len() == 0 || run.call() is None {
        None
    } else {
        match outcomes[0] {
            Ok(reply) => error_of(run.given(reply), outcomes.drop_first()),
            Err(error) => Some(error),
        }
    }
}

/// The run when the outcomes are used up or there is no call to make.
pub open spec fn ended<R: Run, E>(run: R, outcomes: Seq<Result<ReplyView, E>>) -> R
    decreases outcomes.len(),
{
    if outcomes.len() == 0 || run.call() is None {
        run
    } else {
        ended(resumed(run, outcomes[0]), outcomes.drop_first())
    }
}

/// Whether a run makes exactly the calls of a conversation, when it is given the replies of it.
pub open spec fn converses<R: Run>(run: R, talk: Seq<(RequestView, ReplyView)>) -> bool
    decreases talk.len(),
{
    talk.len() == 0 || {
        &&& run.call() == Some(talk[0].0)
        &&& run.can_take(talk[0].1)
        &&& converses(run.given(talk[0].1), talk.drop_first())
    }
}

/// The run after a conversation.
pub open spec fn after<R: Run>(run: R, talk: Seq<(RequestView, ReplyView)>) -> R
    decreases talk.len(),
{
    if talk.len() == 0 {
        run
    } else {
        after(run.given(talk[0].1), talk.drop_first())
    }
}

/// The outcomes of a conversation in which every call succeeds.
pub open spec fn successes<E>(talk: Seq<(RequestView, ReplyView)>) -> Seq<Result<ReplyView, E>> {
    talk.map_values(|exchange: (RequestView, ReplyView)| Ok::<ReplyView, E>(exchange.1))
}

/// The outcomes of a conversation whose first `count` calls succeed and whose next call fails,
/// with whatever would come after that.
pub open spec fn failing_at<E>(
    talk: Seq<(RequestView, ReplyView)>,
    count: int,
    error: E,
    rest: Seq<Result<ReplyView, E>>,
) -> Seq<Result<ReplyView, E>> {
    successes(talk.take(count)) + seq![Err::<ReplyView, E>(error)] + rest
}

/// A run without a call to make makes none, whatever would come of it.
proof fn lemma_no_call<R: Run, E>(run: R, outcomes: Seq<Result<ReplyView, E>>)
    requires
        run.call() is None,
    ensures
        calls_made(run, outcomes) == Seq::<RequestView>::empty(),
        error_of(run, outcomes) is None,
        ended(run, outcomes) == run,
{
}

/// A run that converses and then fails.
proof fn lemma_failure<R: Run, E>(
    run: R,
    talk: Seq<(RequestView, ReplyView)>,
    count: int,
    error: E,
    rest: Seq<Result<ReplyView, E>>,
)
    requires
        converses(run, talk),
        0 <= count < talk.len(),
        after(run, talk.take(count)).failed().call() is None,
    ensures
        calls_made(run, failing_at(talk, count, error, rest)) == requests_of(talk).take(count + 1),
        error_of(run, failing_at(talk, count, error, rest)) == Some(error),
        ended(run, failing_at(talk, count, error, rest)) == after(
            run,
            talk.take(count),
        ).failed(),
    decreases count,
{
    let outcomes = failing_at(talk, count, error, rest);
    let later = outcomes.drop_first();
    let calls = requests_of(talk).take(count + 1);
    if count == 0 {
        assert(outcomes[0] == Err::<ReplyView, E>(error));
        assert(talk.take(0) =~= Seq::empty());
        lemma_no_call(run.failed(), later);
        assert(calls =~= seq![talk[0].0]);
        assert(calls_made(run, outcomes) =~= calls);
    } else {
        let next = run.given(talk[0].1);
        let tail = talk.drop_first();
        assert(outcomes[0] == Ok::<ReplyView, E>(talk[0].1));
        assert(tail.take(count - 1) =~= talk.take(count).drop_first());
        assert(talk.take(count)[0] == talk[0]);
        assert(later =~= failing_at(tail, count - 1, error, rest));
        lemma_failure(next, tail, count - 1, error, rest);
        assert(seq![talk[0].0] + requests_of(tail).take(count) =~= calls);
    }
}

/// A run that converses without a failure.
proof fn lemma_success<R: Run, E>(run: R, talk: Seq<(RequestView, ReplyView)>)
    requires
        converses(run, talk),
    ensures
        calls_made(run, successes::<E>(talk)) == requests_of(talk),
        error_of(run, successes::<E>(talk)) is None,
        ended(run, successes::<E>(talk)) == after(run, talk),
    decreases talk.len(),
{
    let outcomes = successes::<E>(talk);
    if talk.len() == 0 {
        assert(requests_of(talk) =~= Seq::empty());
    } else {
        let next = run.given(talk[0].1);
        let tail = talk.drop_first();
        assert(outcomes[0] == Ok::<ReplyView, E>(talk[0].1));
        assert(outcomes.drop_first() =~= successes::<E>(tail));
        lemma_success::<R, E>(next, tail);
        assert(seq![talk[0].0] + requests_of(tail) =~= requests_of(talk));
    }
}

/// While a comparison goes on, the first call that fails ends it: no call follows, the error of
/// that call is the result, and there is no diff. As long as no call fails, there is no error.
pub proof fn law_comparing_ends_at_the_first_failure<E>(
    run: DiffRunView,
    talk: Seq<(RequestView, ReplyView)>,
    count: int,
    error: E,
    rest: Seq<Result<ReplyView, E>>,
)
    requires
        converses(run, talk),
        0 <= count < talk.len(),
    ensures
        calls_made(run, failing_at(talk, count, error, rest)) == requests_of(talk).take(count + 1),
        error_of(run, failing_at(talk, count, error, rest)) == Some(error),
        ended(run, failing_at(talk, count, error, rest)).stage == DiffStageView::Failed,
        calls_made(run, successes::<E>(talk)) == requests_of(talk),
        error_of(run, successes::<E>(talk)) is None,
{
    lemma_failure(run, talk, count, error, rest);
    lemma_success::<DiffRunView, E>(run, talk);
}

/// Whether `github` gave the replies of a conversation.
pub open spec fn given_by(
    github: spec_fn(RequestView) -> ReplyView,
    talk: Seq<(RequestView, ReplyView)>,
) -> bool {
    forall|i: int| 0 <= i < talk.len() ==> (#[trigger] talk[i]).1 == github(talk[i].0)
}

/// A comparison that gets to its end does so by a conversation with GitHub.
proof fn lemma_comparing_is_a_conversation(
    run: DiffRunView,
    github: spec_fn(RequestView) -> ReplyView,
    count: nat,
    end: DiffRunView,
) -> (talk: Seq<(RequestView, ReplyView)>)
    requires
        leads(run, github, count, end),
    ensures
        talk.len() == count,
        given_by(github, talk),
        converses(run, talk),
        after(run, talk) == end,
    decreases count,
{
    if count == 0 {
        Seq::empty()
    } else {
        let request = run.pending()->0;
        let reply = github(request);
        let tail = lemma_comparing_is_a_conversation(
            run.next(reply),
            github,
            (count - 1) as nat,
            end,
        );
        let talk = seq![(request, reply)] + tail;
        assert(talk.drop_first() =~= tail);
        assert forall|i: int| 0 <= i < talk.len() implies (#[trigger] talk[i]).1 == github(
            talk[i].0,
        ) by {
            if i > 0 {
                assert(talk[i] == tail[i - 1]);
            }
        }
        talk
    }
}

/// Against a GitHub that answers, comparing all teams and repositories is one conversation. Where
/// no call fails it ends with exactly the difference and without an error. Where a call fails,
/// whichever it is, no call follows, the error of that call is the result, and there is no diff.
pub proof fn law_comparing_up_to_a_failure<E>(
    github: spec_fn(RequestView) -> ReplyView,
    sync: SyncGitHubView,
    count: int,
    error: E,
    rest: Seq<Result<ReplyView, E>>,
) -> (talk: Seq<(RequestView, ReplyView)>)
    requires
        answering(github),
        forall|i: int|
            0 <= i < github_teams(sync.teams).len() ==> members_known(
                sync,
                #[trigger] github_teams(sync.teams)[i],
            ),
        forall|i: int| 0 <= i < sync.repos.len() ==> head_known(github, #[trigger] sync.repos[i]),
    ensures
        given_by(github, talk),
        ({
            let run = diff_run::start(sync);
            let complete = ended(run, successes::<E>(talk));
            let broken = failing_at(talk, count, error, rest);
            &&& calls_made(run, successes::<E>(talk)) == requests_of(talk)
            &&& error_of(run, successes::<E>(talk)) is None
            &&& complete.stage == DiffStageView::Done
            &&& complete.team_diffs == difference(github, sync).team_diffs
            &&& complete.repo_diffs == difference(github, sync).repo_diffs
            &&& 0 <= count < talk.len() ==> {
                &&& calls_made(run, broken) == requests_of(talk).take(count + 1)
                &&& error_of(run, broken) == Some(error)
                &&& ended(run, broken).stage == DiffStageView::Failed
            }
        }),
{
    let run = diff_run::start(sync);
    let end = DiffRunView {
        sync,
        listings: listings_there(github, github_teams(sync.teams)),
        team_diffs: difference(github, sync).team_diffs,
        repo_diffs: difference(github, sync).repo_diffs,
        stage: DiffStageView::Done,
    };
    law_comparing_finds_the_difference(github, sync);
    let calls = choose|calls: nat| leads(run, github, calls, end);
    let talk = lemma_comparing_is_a_conversation(run, github, calls, end);
    lemma_success::<DiffRunView, E>(run, talk);
    if 0 <= count < talk.len() {
        law_comparing_ends_at_the_first_failure(run, talk, count, error, rest);
    }
    talk
}

proof fn lemma_apply_converses(run: ApplyRunView, talk: Seq<(RequestView, ReplyView)>)
    requires
        law_apply::follows(run, talk),
    ensures
        converses(run, talk),
        after(run, talk) == law_apply::after(run, talk),
    decreases talk.len(),
{
    if talk.len() > 0 {
        lemma_apply_converses(run.next(talk[0].1), talk.drop_first());
    }
}

/// While a diff is carried out, the first call that fails ends it: the calls before it were made
/// in their order, no call follows, and the error of that call is the result. As long as no call
/// fails, all calls of the diff are made and there is no error.
pub proof fn law_applying_ends_at_the_first_failure<E>(
    diff: DiffView,
    created: spec_fn(int) -> (RepoView, Seq<char>),
    updated: spec_fn(RequestView) -> bool,
    count: int,
    error: E,
    rest: Seq<Result<ReplyView, E>>,
)
    ensures
        ({
            let run = apply_run::start(diff);
            let talk = law_apply::conversation(diff, created, updated);
            &&& 0 <= count < talk.len() ==> {
                &&& calls_made(run, failing_at(talk, count, error, rest)) == requests_of(
                    talk,
                ).take(count + 1)
                &&& error_of(run, failing_at(talk, count, error, rest)) == Some(error)
            }
            &&& calls_made(run, successes::<E>(talk)) == requests_of(talk)
            &&& error_of(run, successes::<E>(talk)) is None
            &&& ended(run, successes::<E>(talk)).pending() is None
        }),
{
    let run = apply_run::start(diff);
    let talk = law_apply::conversation(diff, created, updated);
    law_apply_makes_the_calls_of_the_diff(diff, created, updated);
    lemma_apply_converses(run, talk);
    lemma_success::<ApplyRunView, E>(run, talk);
    if 0 <= count < talk.len() {
        lemma_failure(run, talk, count, error, rest);
    }
}

/// The diff that is about nothing but the update of one repository.
pub open spec fn only_update(update: UpdateRepoDiffView) -> DiffView {
    DiffView { team_diffs: Seq::empty(), repo_diffs: seq![RepoDiffView::Update(update)] }
}

/// Carrying out the update of a repository makes the calls of the update in their order, up to
/// the first that fails, whose error is the result; if none fails, all of them and there is no
/// error. An update that is a no-op makes no call and gives no error, whatever would come of one.
pub proof fn law_updating_ends_at_the_first_failure<E>(
    update: UpdateRepoDiffView,
    updated: spec_fn(RequestView) -> bool,
    count: int,
    error: E,
    rest: Seq<Result<ReplyView, E>>,
)
    ensures
        ({
            let run = apply_run::start(only_update(update));
            let talk = confirmed(update.requests(), updated);
            &&& 0 <= count < update.requests().len() ==> {
                &&& calls_made(run, failing_at(talk, count, error, rest))
                    == update.requests().take(count + 1)
                &&& error_of(run, failing_at(talk, count, error, rest)) == Some(error)
            }
            &&& calls_made(run, successes::<E>(talk)) == update.requests()
            &&& error_of(run, successes::<E>(talk)) is None
            &&& ended(run, successes::<E>(talk)).pending() is None
            &&& update.is_noop() ==> {
                &&& calls_made(run, rest) == Seq::<RequestView>::empty()
                &&& error_of(run, rest) is None
            }
        }),
{
    let diff = only_update(update);
    let run = apply_run::start(diff);
    let created = |i: int|
        (
            RepoView {
                org: Seq::empty(),
                name: Seq::empty(),
                description: None,
                default_branch: Seq::empty(),
            },
            Seq::<char>::empty(),
        );
    let talk = confirmed(update.requests(), updated);
    reveal_with_fuel(law_apply::repos_conversation, 2);
    reveal_with_fuel(law_apply::teams_conversation, 2);
    assert(diff.repo_diffs.drop_last() =~= Seq::empty());
    assert(law_apply::conversation(diff, created, updated) =~= talk);
    law_applying_ends_at_the_first_failure(diff, created, updated, count, error, rest);
    assert(requests_of(talk) =~= update.requests());
    if update.is_noop() {
        law_noop_update_makes_no_call(update);
        assert(talk =~= Seq::empty());
        assert(successes::<E>(talk) =~= Seq::empty());
        assert(run.pending() is None);
        lemma_no_call(run, rest);
    }
}

proof fn lemma_sync_converses(run: SyncRunView, talk: Seq<(RequestView, ReplyView)>)
    requires
        law_sync::follows(run, talk),
    ensures
        converses(run, talk),
        after(run, talk) == law_sync::after(run, talk),
    decreases talk.len(),
{
    if talk.len() > 0 {
        lemma_sync_converses(run.next(talk[0].1), talk.drop_first());
    }
}

/// While the repositories are synchronized, the first call that fails ends it: the calls before
/// it were made in their order, no call follows, for this repository or another, and the error of
/// that call is the result. As long as no call fails, all calls are made and there is no error.
pub proof fn law_synchronizing_ends_at_the_first_failure<E>(
    sync: SyncGitHubView,
    given: spec_fn(int) -> Answers,
    count: int,
    error: E,
    rest: Seq<Result<ReplyView, E>>,
)
    ensures
        ({
            let run = sync_run::start(sync);
            let talk = law_sync::conversation(sync, given, sync.repos.len() as int);
            &&& 0 <= count < talk.len() ==> {
                &&& calls_made(run, failing_at(talk, count, error, rest)) == requests_of(
                    talk,
                ).take(count + 1)
                &&& error_of(run, failing_at(talk, count, error, rest)) == Some(error)
            }
            &&& calls_made(run, successes::<E>(talk)) == requests_of(talk)
            &&& error_of(run, successes::<E>(talk)) is None
            &&& ended(run, successes::<E>(talk)).pending() is None
        }),
{
    let run = sync_run::start(sync);
    let talk = law_sync::conversation(sync, given, sync.repos.len() as int);
    law_synchronization(sync, given);
    lemma_sync_converses(run, talk);
    lemma_success::<SyncRunView, E>(run, talk);
    if 0 <= count < talk.len() {
        lemma_failure(run, talk, count, error, rest);
    }
}

} // verus!
