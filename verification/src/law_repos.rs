//! Laws about repositories as a whole, and about changes that change nothing.
use vstd::prelude::*;

use crate::apply::protection_requests;
use crate::branches::{branch_names, branch_protection_diffs};
use crate::call::RequestView;
use crate::diff::{
    BranchProtectionDiffView, EditTeamDiffView, MemberDiff, RepoPermissionAssignmentDiffView,
    UpdateRepoDiffView,
};
use crate::law_access::{
    access_requests, grants_unique, law_no_permission_diffs, law_permission_diffs_converge,
    listed_access, wanted_access, Access,
};
use crate::law_branches::{
    law_no_protection_diffs, law_no_protection_diffs_branch_by_branch,
    law_protection_diffs_converge, protected_as_wanted, wanted_protections, Branches,
};
use crate::permissions::permission_diffs;
use crate::repos::{repo_diff, ActualRepoView};
use crate::team_data::RepoView;
use crate::{law_access, law_branches};

verus! {

/// What a repository on GitHub is like, as far as it is managed.
pub struct RepoState {
    pub description: Option<Seq<char>>,
    pub access: Access,
    pub branches: Branches,
}

/// What a call about a repository does to it.
pub open spec fn perform(state: RepoState, request: RequestView) -> RepoState {
    RepoState {
        description: match request {
            RequestView::CreateRepo { description, .. }
            | RequestView::EditRepo { description, .. } => Some(description),
            _ => state.description,
        },
        access: law_access::perform(state.access, request),
        branches: law_branches::perform(state.branches, request),
    }
}

/// What some calls about a repository do to it, one after the other.
pub open spec fn perform_all(state: RepoState, requests: Seq<RequestView>) -> RepoState
    decreases requests.len(),
{
    if requests.len() == 0 {
        state
    } else {
        perform(perform_all(state, requests.drop_last()), requests.last())
    }
}

/// Whether what was read of a repository is the truth about it.
pub open spec fn describes(state: RepoState, wanted: RepoView, actual: ActualRepoView) -> bool {
    &&& state.description == actual.repo.description
    &&& state.access == listed_access(actual.teams, actual.collaborators)
    &&& law_branches::describes(state.branches, wanted, actual.branches, actual.protected)
}

/// Whether a repository is as it is wanted, when it was like `before` at first.
pub open spec fn is_wanted(wanted: RepoView, before: RepoState, state: RepoState) -> bool {
    &&& state.description == Some(wanted.description)
    &&& state.access == wanted_access(wanted, before.access)
    &&& state.branches.protections == wanted_protections(wanted)
}

/// Whether a call changes the access to a repository.
pub open spec fn changes_access(request: RequestView) -> bool {
    request is UpdateTeamRepoPermissions || request is UpdateUserRepoPermissions || request
        is RemoveTeamFromRepo || request is RemoveCollaboratorFromRepo
}

/// Whether a call changes the branches of a repository.
pub open spec fn changes_branches(request: RequestView) -> bool {
    request is CreateBranch || request is UpdateBranchProtection || request
        is DeleteBranchProtection
}

/// Whether a call changes the description of a repository.
pub open spec fn changes_description(request: RequestView) -> bool {
    request is CreateRepo || request is EditRepo
}

/// Each part of a repository changes by itself.
pub proof fn lemma_parts(state: RepoState, requests: Seq<RequestView>)
    ensures
        perform_all(state, requests).access == law_access::perform_all(state.access, requests),
        perform_all(state, requests).branches == law_branches::perform_all(
            state.branches,
            requests,
        ),
    decreases requests.len(),
{
    if requests.len() > 0 {
        lemma_parts(state, requests.drop_last());
    }
}

/// Carrying out calls in two parts is carrying them out in one go.
pub proof fn lemma_perform_append(state: RepoState, a: Seq<RequestView>, b: Seq<RequestView>)
    ensures
        perform_all(state, a + b) == perform_all(perform_all(state, a), b),
    decreases b.len(),
{
    if b.len() == 0 {
        assert(a + b =~= a);
    } else {
        assert((a + b).drop_last() =~= a + b.drop_last());
        lemma_perform_append(state, a, b.drop_last());
    }
}

/// Calls that have nothing to do with a part of a repository leave it alone.
pub proof fn lemma_untouched(state: RepoState, requests: Seq<RequestView>)
    ensures
        (forall|i: int| 0 <= i < requests.len() ==> !changes_access(#[trigger] requests[i]))
            ==> perform_all(state, requests).access == state.access,
        (forall|i: int| 0 <= i < requests.len() ==> !changes_branches(#[trigger] requests[i]))
            ==> perform_all(state, requests).branches == state.branches,
        (forall|i: int| 0 <= i < requests.len() ==> !changes_description(#[trigger] requests[i]))
            ==> perform_all(state, requests).description == state.description,
    decreases requests.len(),
{
    if requests.len() > 0 {
        let earlier = requests.drop_last();
        lemma_untouched(state, earlier);
        assert(forall|i: int| 0 <= i < earlier.len() ==> earlier[i] == requests[i]);
        assert(requests.last() == requests[requests.len() - 1]);
        if forall|i: int| 0 <= i < requests.len() ==> !changes_access(#[trigger] requests[i]) {
            assert(forall|i: int| 0 <= i < earlier.len() ==> !changes_access(#[trigger] earlier[i]));
        }
        if forall|i: int| 0 <= i < requests.len() ==> !changes_branches(#[trigger] requests[i]) {
            assert(forall|i: int|
                0 <= i < earlier.len() ==> !changes_branches(#[trigger] earlier[i]));
        }
        if forall|i: int|
            0 <= i < requests.len() ==> !changes_description(#[trigger] requests[i]) {
            assert(forall|i: int|
                0 <= i < earlier.len() ==> !changes_description(#[trigger] earlier[i]));
        }
    }
}

/// The calls of permission diffs change nothing but the access.
proof fn lemma_access_requests(
    diffs: Seq<RepoPermissionAssignmentDiffView>,
    org: Seq<char>,
    name: Seq<char>,
)
    ensures
        forall|i: int|
            0 <= i < access_requests(diffs, org, name).len() ==> changes_access(
                #[trigger] access_requests(diffs, org, name)[i],
            ),
{
}

/// The calls of protection diffs change nothing but the branches, and there are some if there
/// are diffs.
proof fn lemma_protection_requests(
    diffs: Seq<BranchProtectionDiffView>,
    org: Seq<char>,
    name: Seq<char>,
)
    ensures
        forall|i: int|
            0 <= i < protection_requests(org, name, diffs).len() ==> changes_branches(
                #[trigger] protection_requests(org, name, diffs)[i],
            ),
        protection_requests(org, name, diffs).len() == 0 <==> diffs.len() == 0,
    decreases diffs.len(),
{
    if diffs.len() > 0 {
        lemma_protection_requests(diffs.drop_last(), org, name);
        let all = protection_requests(org, name, diffs);
        let earlier = protection_requests(org, name, diffs.drop_last());
        let last = diffs.last().requests(org, name);
        assert forall|i: int| 0 <= i < all.len() implies changes_branches(#[trigger] all[i]) by {
            if i < earlier.len() {
                assert(all[i] == earlier[i]);
            } else {
                assert(all[i] == last[i - earlier.len()]);
            }
        }
    }
}

/// The calls that change the description.
pub open spec fn description_requests(update: UpdateRepoDiffView) -> Seq<RequestView> {
    match update.description_diff {
        Some((_, description)) => seq![
            RequestView::EditRepo { org: update.org, name: update.name, description },
        ],
        None => Seq::empty(),
    }
}

/// Carrying out the update of a repository whose branches are named once each makes it as it
/// is wanted: the description, the access to it and the protections of its branches.
pub proof fn law_update_converges(before: RepoState, wanted: RepoView, actual: ActualRepoView)
    requires
        branch_names(wanted).no_duplicates(),
        describes(before, wanted, actual),
    ensures
        repo_diff(wanted, Some(actual)) is Update,
        is_wanted(
            wanted,
            before,
            perform_all(before, repo_diff(wanted, Some(actual))->Update_0.requests()),
        ),
{
    let update = repo_diff(wanted, Some(actual))->Update_0;
    let a = description_requests(update);
    let b = access_requests(update.permission_diffs, update.org, update.name);
    let c = protection_requests(update.org, update.name, update.branch_protection_diffs);
    assert(update.requests() =~= a + b + c);
    lemma_perform_append(before, a + b, c);
    lemma_perform_append(before, a, b);
    let after_a = perform_all(before, a);
    let after_b = perform_all(after_a, b);
    let after = perform_all(after_b, c);
    lemma_untouched(before, a);
    assert(after_a.description == Some(wanted.description)) by {
        if update.description_diff is Some {
            reveal_with_fuel(perform_all, 2);
            assert(a.drop_last() =~= Seq::empty());
        }
    }
    lemma_access_requests(update.permission_diffs, update.org, update.name);
    assert forall|i: int| 0 <= i < b.len() implies !changes_branches(#[trigger] b[i])
        && !changes_description(b[i]) by {
        assert(changes_access(b[i]));
    }
    lemma_untouched(after_a, b);
    lemma_parts(after_a, b);
    law_permission_diffs_converge(
        wanted,
        actual.teams,
        actual.collaborators,
        update.org,
        update.name,
    );
    lemma_protection_requests(update.branch_protection_diffs, update.org, update.name);
    assert forall|i: int| 0 <= i < c.len() implies !changes_access(#[trigger] c[i])
        && !changes_description(c[i]) by {
        assert(changes_branches(c[i]));
    }
    lemma_untouched(after_b, c);
    lemma_parts(after_b, c);
    law_protection_diffs_converge(
        before.branches,
        wanted,
        actual.branches,
        actual.protected,
        update.org,
        update.name,
    );
}

/// A repository that gives nobody access twice and whose branches are named once each needs
/// no change if and only if it has the wanted name and is as it is wanted.
pub proof fn law_update_noop(state: RepoState, wanted: RepoView, actual: ActualRepoView)
    requires
        grants_unique(wanted),
        branch_names(wanted).no_duplicates(),
        describes(state, wanted, actual),
    ensures
        repo_diff(wanted, Some(actual)) is Update,
        repo_diff(wanted, Some(actual))->Update_0.is_noop() <==> actual.repo.name == wanted.name
            && is_wanted(wanted, state, state),
{
    law_no_permission_diffs(wanted, actual.teams, actual.collaborators);
    law_no_protection_diffs(state.branches, wanted, actual.branches, actual.protected);
}

/// A repository needs no change if and only if it has the wanted name and description, gives
/// nobody access twice and has exactly the wanted access, every branch that is to be protected is
/// there with exactly its wanted protection, and every branch that is protected is to be
/// protected; also where a branch is named more than once.
pub proof fn law_update_noop_part_by_part(
    state: RepoState,
    wanted: RepoView,
    actual: ActualRepoView,
)
    requires
        describes(state, wanted, actual),
    ensures
        repo_diff(wanted, Some(actual)) is Update,
        repo_diff(wanted, Some(actual))->Update_0.is_noop() <==> {
            &&& actual.repo.name == wanted.name
            &&& state.description == Some(wanted.description)
            &&& grants_unique(wanted)
            &&& state.access == wanted_access(wanted, state.access)
            &&& protected_as_wanted(state.branches, wanted)
        },
{
    law_no_permission_diffs(wanted, actual.teams, actual.collaborators);
    law_no_protection_diffs_branch_by_branch(
        state.branches,
        wanted,
        actual.branches,
        actual.protected,
    );
}

/// After the update of a repository was carried out, at most its name is left to be changed.
pub proof fn law_update_settles(
    before: RepoState,
    wanted: RepoView,
    actual: ActualRepoView,
    later: ActualRepoView,
)
    requires
        grants_unique(wanted),
        branch_names(wanted).no_duplicates(),
        describes(before, wanted, actual),
        describes(
            perform_all(before, repo_diff(wanted, Some(actual))->Update_0.requests()),
            wanted,
            later,
        ),
    ensures
        ({
            let update = repo_diff(wanted, Some(later))->Update_0;
            &&& (UpdateRepoDiffView { name_diff: None, ..update }).is_noop()
            &&& update.requests().len() == 0
        }),
{
    let after = perform_all(before, repo_diff(wanted, Some(actual))->Update_0.requests());
    law_update_converges(before, wanted, actual);
    law_no_permission_diffs(wanted, later.teams, later.collaborators);
    law_no_protection_diffs(after.branches, wanted, later.branches, later.protected);
    let settled = wanted_access(wanted, after.access);
    assert(after.access.teams =~= settled.teams);
    assert(after.access.users =~= settled.users);
    let update = repo_diff(wanted, Some(later))->Update_0;
    assert(update.requests() =~= Seq::empty());
}

/// An update is a no-op if and only if it changes no name and makes no call.
pub proof fn law_noop_update_makes_no_call(update: UpdateRepoDiffView)
    ensures
        update.is_noop() <==> update.name_diff is None && update.requests().len() == 0,
{
    let a = description_requests(update);
    let b = access_requests(update.permission_diffs, update.org, update.name);
    let c = protection_requests(update.org, update.name, update.branch_protection_diffs);
    assert(update.requests() =~= a + b + c);
    lemma_protection_requests(update.branch_protection_diffs, update.org, update.name);
}

/// An update is told if and only if it changes something.
pub proof fn law_noop_update_is_silent(update: UpdateRepoDiffView)
    ensures
        update.is_noop() <==> update.lines().len() == 0,
{
}

/// The edit of a team is told if and only if it changes something.
pub proof fn law_noop_edit_is_silent(edit: EditTeamDiffView)
    ensures
        edit.is_noop() <==> edit.lines().len() == 0,
{
}

proof fn lemma_no_member_requests(
    org: Seq<char>,
    team: Seq<char>,
    diffs: Seq<(Seq<char>, MemberDiff)>,
)
    ensures
        crate::apply::member_requests(org, team, diffs).len() == 0 <==> forall|i: int|
            0 <= i < diffs.len() ==> (#[trigger] diffs[i]).1 is Noop,
    decreases diffs.len(),
{
    if diffs.len() > 0 {
        let earlier = diffs.drop_last();
        lemma_no_member_requests(org, team, earlier);
        assert(forall|i: int| 0 <= i < earlier.len() ==> earlier[i] == diffs[i]);
        assert(diffs.last() == diffs[diffs.len() - 1]);
        if forall|i: int| 0 <= i < diffs.len() ==> (#[trigger] diffs[i]).1 is Noop {
            assert(forall|i: int| 0 <= i < earlier.len() ==> (#[trigger] earlier[i]).1 is Noop);
        }
        if crate::apply::member_requests(org, team, diffs).len() == 0 {
            assert forall|i: int| 0 <= i < diffs.len() implies (#[trigger] diffs[i]).1 is Noop by {
                if i < earlier.len() {
                    assert(earlier[i].1 is Noop);
                }
            }
        }
    }
}

/// The edit of a team is a no-op if and only if the one call that it makes changes no property
/// of the team.
pub proof fn law_noop_edit_changes_nothing(edit: EditTeamDiffView)
    ensures
        edit.is_noop() <==> edit.requests() == seq![
            RequestView::EditTeam {
                org: edit.org,
                name: edit.name,
                new_name: None,
                new_description: None,
                new_privacy: None,
            },
        ],
{
    lemma_no_member_requests(edit.org, edit.name, edit.member_diffs);
    let idle = seq![
        RequestView::EditTeam {
            org: edit.org,
            name: edit.name,
            new_name: None,
            new_description: None,
            new_privacy: None,
        },
    ];
    let members = crate::apply::member_requests(edit.org, edit.name, edit.member_diffs);
    assert(edit.requests().len() == 1 + members.len());
    if edit.is_noop() {
        assert(edit.requests() =~= idle);
    }
    if edit.requests() == idle {
        assert(members.len() == 0);
        assert(edit.requests()[0] == idle[0]);
    }
}

} // verus!
