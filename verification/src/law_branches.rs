//! Laws about the protection of branches.
use vstd::prelude::*;

use crate::api::BranchProtectionView;
use crate::apply::protection_requests;
use crate::branches::{
    branch_names, branch_operation, branch_protection_diffs, stray_protections,
    wanted_branch_diffs, BranchStateView,
};
use crate::call::RequestView;
use crate::diff::{BranchProtectionDiffOperationView, BranchProtectionDiffView};
use crate::lists::{as_map, distinct, keys, law_distinct, lemma_kept, lemma_lookup_entry};
use crate::repos::initial_protections;
use crate::rules::wanted_protection;
use crate::team_data::RepoView;

verus! {

/// The branches of a repository: the commits at their heads, and the protections of those
/// that are protected.
pub struct Branches {
    pub heads: Map<Seq<char>, Seq<char>>,
    pub protections: Map<Seq<char>, BranchProtectionView>,
}

/// What a call about a repository does to its branches. Nothing but an existing branch can be
/// protected.
pub open spec fn perform(branches: Branches, request: RequestView) -> Branches {
    match request {
        RequestView::CreateBranch { branch, commit, .. } => Branches {
            heads: branches.heads.insert(branch, commit),
            ..branches
        },
        RequestView::UpdateBranchProtection { branch, protection, .. } => Branches {
            protections: if branches.heads.contains_key(branch) {
                branches.protections.insert(branch, protection)
            } else {
                branches.protections
            },
            ..branches
        },
        RequestView::DeleteBranchProtection { branch, .. } => Branches {
            protections: branches.protections.remove(branch),
            ..branches
        },
        _ => branches,
    }
}

/// What some calls about a repository do to its branches, one after the other.
pub open spec fn perform_all(branches: Branches, requests: Seq<RequestView>) -> Branches
    decreases requests.len(),
{
    if requests.len() == 0 {
        branches
    } else {
        perform(perform_all(branches, requests.drop_last()), requests.last())
    }
}

/// What `states` should say of the branch with a name.
pub open spec fn state_of(branches: Branches, name: Seq<char>, state: BranchStateView) -> bool {
    match state {
        BranchStateView::Missing { .. } => !branches.heads.contains_key(name),
        BranchStateView::Present { protection } => {
            &&& branches.heads.contains_key(name)
            &&& protection == if branches.protections.contains_key(name) {
                Some(branches.protections[name])
            } else {
                None
            }
        },
    }
}

/// Whether `states` and `protected` tell the truth about the branches of a repository, of
/// which nothing but existing ones are protected.
pub open spec fn describes(
    branches: Branches,
    repo: RepoView,
    states: Seq<BranchStateView>,
    protected: Seq<Seq<char>>,
) -> bool {
    &&& states.len() == repo.branches.len()
    &&& forall|i: int|
        0 <= i < states.len() ==> state_of(branches, repo.branches[i].name, #[trigger] states[i])
    &&& forall|name: Seq<char>|
        branches.protections.contains_key(name) <==> #[trigger] protected.contains(name)
    &&& forall|name: Seq<char>| #[trigger]
        branches.protections.contains_key(name) ==> branches.heads.contains_key(name)
}

/// The protections that the branches of a repository are to have.
pub open spec fn wanted_protections(repo: RepoView) -> Map<Seq<char>, BranchProtectionView> {
    as_map(initial_protections(repo))
}

/// Carrying out calls in two parts is carrying them out in one go.
pub proof fn lemma_perform_append(branches: Branches, a: Seq<RequestView>, b: Seq<RequestView>)
    ensures
        perform_all(branches, a + b) == perform_all(perform_all(branches, a), b),
    decreases b.len(),
{
    if b.len() == 0 {
        assert(a + b =~= a);
    } else {
        assert((a + b).drop_last() =~= a + b.drop_last());
        lemma_perform_append(branches, a, b.drop_last());
    }
}

proof fn lemma_requests_append(
    org: Seq<char>,
    name: Seq<char>,
    a: Seq<BranchProtectionDiffView>,
    b: Seq<BranchProtectionDiffView>,
)
    ensures
        protection_requests(org, name, a + b) == protection_requests(org, name, a)
            + protection_requests(org, name, b),
    decreases b.len(),
{
    if b.len() == 0 {
        assert(a + b =~= a);
        assert(protection_requests(org, name, a) + protection_requests(org, name, b)
            =~= protection_requests(org, name, a));
    } else {
        assert((a + b).drop_last() =~= a + b.drop_last());
        lemma_requests_append(org, name, a, b.drop_last());
        assert(protection_requests(org, name, a + b) =~= protection_requests(org, name, a)
            + protection_requests(org, name, b));
    }
}

/// What the calls of one diff do.
proof fn lemma_one_diff(
    branches: Branches,
    diff: BranchProtectionDiffView,
    org: Seq<char>,
    name: Seq<char>,
)
    ensures
        perform_all(branches, diff.requests(org, name)) == match diff.operation {
            BranchProtectionDiffOperationView::CreateWithBranch(protection, commit) => perform(
                perform(
                    branches,
                    RequestView::CreateBranch { org, repo: name, branch: diff.name, commit },
                ),
                RequestView::UpdateBranchProtection {
                    org,
                    repo: name,
                    branch: diff.name,
                    protection,
                },
            ),
            BranchProtectionDiffOperationView::Create(protection)
            | BranchProtectionDiffOperationView::Update(_, protection) => perform(
                branches,
                RequestView::UpdateBranchProtection {
                    org,
                    repo: name,
                    branch: diff.name,
                    protection,
                },
            ),
            BranchProtectionDiffOperationView::Delete => perform(
                branches,
                RequestView::DeleteBranchProtection { org, repo: name, branch: diff.name },
            ),
        },
{
    reveal_with_fuel(perform_all, 3);
    let requests = diff.requests(org, name);
    assert(requests.drop_last().len() == requests.len() - 1);
    if requests.len() == 2 {
        assert(requests.drop_last().drop_last() =~= Seq::empty());
        assert(requests.drop_last().last() == requests[0]);
    } else {
        assert(requests.drop_last() =~= Seq::empty());
    }
}

/// Carrying out the diffs of the wanted branches gives each of them its protection, creates
/// those that are missing, and touches no other branch.
proof fn lemma_wanted_converge(
    before: Branches,
    repo: RepoView,
    states: Seq<BranchStateView>,
    protected: Seq<Seq<char>>,
    count: int,
    org: Seq<char>,
    name: Seq<char>,
)
    requires
        branch_names(repo).no_duplicates(),
        describes(before, repo, states, protected),
        0 <= count <= repo.branches.len(),
    ensures
        ({
            let after = perform_all(
                before,
                protection_requests(
                    org,
                    name,
                    wanted_branch_diffs(repo, repo.branches.take(count), states),
                ),
            );
            &&& forall|i: int|
                0 <= i < count ==> {
                    let branch = #[trigger] repo.branches[i];
                    &&& after.heads.contains_key(branch.name)
                    &&& after.protections.contains_key(branch.name)
                    &&& after.protections[branch.name] == wanted_protection(repo, branch)
                    &&& states[i] matches BranchStateView::Missing { head }
                        ==> after.heads[branch.name] == head
                }
            &&& forall|other: Seq<char>|
                (forall|i: int| 0 <= i < count ==> (#[trigger] repo.branches[i]).name != other) ==> {
                    &&& #[trigger] after.protections.contains_key(other)
                        <==> before.protections.contains_key(other)
                    &&& after.protections[other] == before.protections[other]
                    &&& after.heads.contains_key(other) <==> before.heads.contains_key(other)
                }
            &&& forall|branch: Seq<char>| #[trigger]
                before.heads.contains_key(branch) ==> after.heads.contains_key(branch)
                    && after.heads[branch] == before.heads[branch]
        }),
    decreases count,
{
    let diffs = wanted_branch_diffs(repo, repo.branches.take(count), states);
    let after = perform_all(before, protection_requests(org, name, diffs));
    if count > 0 {
        let i = count - 1;
        let branch = repo.branches[i];
        let now = repo.branches.take(count);
        assert(now.drop_last() =~= repo.branches.take(i));
        assert(now.last() == branch);
        lemma_wanted_converge(before, repo, states, protected, i, org, name);
        let earlier = wanted_branch_diffs(repo, repo.branches.take(i), states);
        let middle = perform_all(before, protection_requests(org, name, earlier));
        assert forall|j: int| 0 <= j < i implies (#[trigger] repo.branches[j]).name
            != branch.name by {
            assert(branch_names(repo)[j] != branch_names(repo)[i]);
        }
        assert(middle.protections.contains_key(branch.name) <==> before.protections.contains_key(
            branch.name,
        ));
        assert(state_of(before, branch.name, states[i]));
        let wanted = wanted_protection(repo, branch);
        match branch_operation(wanted, states[i]) {
            None => {
                assert(diffs =~= earlier);
            },
            Some(operation) => {
                let diff = BranchProtectionDiffView { name: branch.name, operation };
                assert(diffs =~= earlier.push(diff));
                assert(diffs.drop_last() =~= earlier);
                lemma_perform_append(
                    before,
                    protection_requests(org, name, earlier),
                    diff.requests(org, name),
                );
                lemma_one_diff(middle, diff, org, name);
                assert(after == perform_all(middle, diff.requests(org, name)));
                if before.heads.contains_key(branch.name) {
                    assert(middle.heads.contains_key(branch.name));
                }
            },
        }
        assert forall|j: int| 0 <= j < count implies {
            let branch = #[trigger] repo.branches[j];
            &&& after.heads.contains_key(branch.name)
            &&& after.protections.contains_key(branch.name)
            &&& after.protections[branch.name] == wanted_protection(repo, branch)
            &&& states[j] matches BranchStateView::Missing { head } ==> after.heads[branch.name]
                == head
        } by {
            if j < i {
                assert(repo.branches[j].name != branch.name);
            }
        }
        assert forall|other: Seq<char>|
            (forall|j: int| 0 <= j < count ==> (#[trigger] repo.branches[j]).name
                != other) implies {
            &&& #[trigger] after.protections.contains_key(other)
                <==> before.protections.contains_key(other)
            &&& after.protections[other] == before.protections[other]
            &&& after.heads.contains_key(other) <==> before.heads.contains_key(other)
        } by {
            assert(repo.branches[i].name != other);
            assert(forall|j: int| 0 <= j < i ==> (#[trigger] repo.branches[j]).name != other);
            assert(middle.protections.contains_key(other) <==> before.protections.contains_key(
                other,
            ));
        }
        assert forall|key: Seq<char>| #[trigger] before.heads.contains_key(
            key,
        ) implies after.heads.contains_key(key) && after.heads[key] == before.heads[key] by {
            assert(middle.heads.contains_key(key));
        }
    } else {
        assert(repo.branches.take(0) =~= Seq::empty());
        assert(diffs =~= Seq::empty());
    }
}

/// The diffs that remove protections.
pub open spec fn unprotections(names: Seq<Seq<char>>) -> Seq<BranchProtectionDiffView> {
    names.map_values(
        |name: Seq<char>|
            BranchProtectionDiffView { name, operation: BranchProtectionDiffOperationView::Delete },
    )
}

proof fn lemma_unprotect(
    before: Branches,
    names: Seq<Seq<char>>,
    org: Seq<char>,
    repo: Seq<char>,
)
    ensures
        ({
            let after = perform_all(before, protection_requests(org, repo, unprotections(names)));
            &&& after.heads == before.heads
            &&& after.protections == before.protections.remove_keys(names.to_set())
        }),
    decreases names.len(),
{
    let diffs = unprotections(names);
    if names.len() == 0 {
        assert(before.protections.remove_keys(names.to_set()) =~= before.protections);
    } else {
        let earlier = names.drop_last();
        lemma_unprotect(before, earlier, org, repo);
        assert(diffs.drop_last() =~= unprotections(earlier));
        lemma_perform_append(
            before,
            protection_requests(org, repo, unprotections(earlier)),
            diffs.last().requests(org, repo),
        );
        let middle = perform_all(before, protection_requests(org, repo, unprotections(earlier)));
        lemma_one_diff(middle, diffs.last(), org, repo);
        assert(names =~= earlier.push(names.last()));
        assert forall|name: Seq<char>|
            names.to_set().contains(name) <==> earlier.to_set().contains(name) || name
                == names.last() by {
            if earlier.contains(name) {
                let i = choose|i: int| 0 <= i < earlier.len() && earlier[i] == name;
                assert(names[i] == name);
            }
            if name == names.last() {
                assert(names[names.len() - 1] == name);
            }
        }
        assert(before.protections.remove_keys(earlier.to_set()).remove(names.last())
            =~= before.protections.remove_keys(names.to_set()));
    }
}

/// The protections that are to be removed are those of branches that are not meant to be
/// protected.
pub proof fn lemma_stray_protections(repo: RepoView, protected: Seq<Seq<char>>)
    ensures
        forall|name: Seq<char>| #[trigger]
            stray_protections(repo, protected).contains(name) <==> protected.contains(name)
                && !branch_names(repo).contains(name),
{
    let keep = |name: Seq<char>| !branch_names(repo).contains(name);
    let once = distinct(protected);
    let stray = stray_protections(repo, protected);
    law_distinct(protected);
    lemma_kept(once, keep);
    assert forall|name: Seq<char>| #[trigger]
        stray.contains(name) <==> protected.contains(name) && !branch_names(repo).contains(
            name,
        ) by {
        assert(once.contains(name) <==> protected.contains(name));
    }
}

/// The wanted protections, entry by entry.
pub proof fn lemma_wanted_protections(repo: RepoView)
    requires
        branch_names(repo).no_duplicates(),
    ensures
        forall|name: Seq<char>| #[trigger]
            wanted_protections(repo).contains_key(name) <==> branch_names(repo).contains(name),
        forall|i: int|
            0 <= i < repo.branches.len() ==> wanted_protections(
                repo,
            )[(#[trigger] repo.branches[i]).name] == wanted_protection(repo, repo.branches[i]),
{
    let entries = initial_protections(repo);
    assert(keys(entries) =~= branch_names(repo));
    assert forall|i: int| 0 <= i < repo.branches.len() implies wanted_protections(
        repo,
    )[(#[trigger] repo.branches[i]).name] == wanted_protection(repo, repo.branches[i]) by {
        lemma_lookup_entry(entries, i);
        assert(keys(entries)[i] == repo.branches[i].name);
        assert(keys(entries).contains(repo.branches[i].name));
    }
}

/// Carrying out the protection diffs of a repository whose branches are named once each gives
/// the branches the wanted protections and no others. Branches that were missing start at the
/// head of the main branch; the others stay where they are.
pub proof fn law_protection_diffs_converge(
    before: Branches,
    repo: RepoView,
    states: Seq<BranchStateView>,
    protected: Seq<Seq<char>>,
    org: Seq<char>,
    name: Seq<char>,
)
    requires
        branch_names(repo).no_duplicates(),
        describes(before, repo, states, protected),
    ensures
        ({
            let after = perform_all(
                before,
                protection_requests(org, name, branch_protection_diffs(repo, states, protected)),
            );
            &&& after.protections == wanted_protections(repo)
            &&& forall|branch: Seq<char>| #[trigger]
                after.heads.contains_key(branch) <==> before.heads.contains_key(branch)
                    || branch_names(repo).contains(branch)
            &&& forall|branch: Seq<char>| #[trigger]
                before.heads.contains_key(branch) ==> after.heads[branch] == before.heads[branch]
            &&& forall|i: int|
                0 <= i < states.len() ==> (#[trigger] states[i] matches BranchStateView::Missing {
                    head,
                } ==> after.heads[repo.branches[i].name] == head)
        }),
{
    let first = wanted_branch_diffs(repo, repo.branches, states);
    let stray = stray_protections(repo, protected);
    let diffs = branch_protection_diffs(repo, states, protected);
    let count = repo.branches.len() as int;
    assert(repo.branches.take(count) =~= repo.branches);
    assert(diffs =~= first + unprotections(stray));
    lemma_requests_append(org, name, first, unprotections(stray));
    let first_requests = protection_requests(org, name, first);
    lemma_perform_append(
        before,
        first_requests,
        protection_requests(org, name, unprotections(stray)),
    );
    lemma_wanted_converge(before, repo, states, protected, count, org, name);
    let middle = perform_all(before, first_requests);
    lemma_unprotect(middle, stray, org, name);
    let after = perform_all(before, protection_requests(org, name, diffs));
    lemma_stray_protections(repo, protected);
    lemma_wanted_protections(repo);
    let names = branch_names(repo);
    assert forall|branch: Seq<char>| !names.contains(branch) implies forall|i: int|
        0 <= i < count ==> (#[trigger] repo.branches[i]).name != branch by {
        assert forall|i: int| 0 <= i < count implies (#[trigger] repo.branches[i]).name
            != branch by {
            assert(names[i] == repo.branches[i].name);
        }
    }
    assert forall|branch: Seq<char>|
        after.protections.contains_key(branch) <==> wanted_protections(repo).contains_key(
            branch,
        ) by {
        if names.contains(branch) {
            let i = choose|i: int| 0 <= i < names.len() && names[i] == branch;
            assert(repo.branches[i].name == branch);
            assert(middle.protections.contains_key(branch));
            assert(!stray.contains(branch));
        } else {
            assert(middle.protections.contains_key(branch) <==> before.protections.contains_key(
                branch,
            ));
            assert(protected.contains(branch) <==> before.protections.contains_key(branch));
            assert(stray.contains(branch) <==> protected.contains(branch));
        }
    }
    assert forall|branch: Seq<char>| wanted_protections(repo).contains_key(
        branch,
    ) implies after.protections[branch] == wanted_protections(repo)[branch] by {
        let i = choose|i: int| 0 <= i < names.len() && names[i] == branch;
        assert(repo.branches[i].name == branch);
    }
    assert(after.protections =~= wanted_protections(repo));
    assert forall|branch: Seq<char>| #[trigger]
        after.heads.contains_key(branch) <==> before.heads.contains_key(branch) || names.contains(
            branch,
        ) by {
        if names.contains(branch) {
            let i = choose|i: int| 0 <= i < names.len() && names[i] == branch;
            assert(repo.branches[i].name == branch);
        } else {
            assert(middle.protections.contains_key(branch) <==> before.protections.contains_key(
                branch,
            ));
        }
    }
    assert forall|i: int| 0 <= i < states.len() implies (#[trigger] states[i] matches
        BranchStateView::Missing { head } ==> after.heads[repo.branches[i].name] == head) by {
        assert(middle.heads.contains_key(repo.branches[i].name));
    }
}

proof fn lemma_no_wanted_diffs(repo: RepoView, states: Seq<BranchStateView>, count: int)
    requires
        0 <= count <= repo.branches.len(),
    ensures
        wanted_branch_diffs(repo, repo.branches.take(count), states).len() == 0 <==> forall|i: int|
            0 <= i < count ==> #[trigger] states[i] == (BranchStateView::Present {
                protection: Some(wanted_protection(repo, repo.branches[i])),
            }),
    decreases count,
{
    if count > 0 {
        let i = count - 1;
        let now = repo.branches.take(count);
        assert(now.drop_last() =~= repo.branches.take(i));
        assert(now.last() == repo.branches[i]);
        lemma_no_wanted_diffs(repo, states, i);
        let wanted = wanted_protection(repo, repo.branches[i]);
        assert(branch_operation(wanted, states[i]) is None <==> states[i]
            == (BranchStateView::Present { protection: Some(wanted) }));
    }
}

/// Whether every branch that is to be protected is there with exactly its wanted protection,
/// and every branch that is protected is to be protected.
pub open spec fn protected_as_wanted(branches: Branches, repo: RepoView) -> bool {
    &&& forall|i: int|
        0 <= i < repo.branches.len() ==> {
            let name = (#[trigger] repo.branches[i]).name;
            &&& branches.heads.contains_key(name)
            &&& branches.protections.contains_key(name)
            &&& branches.protections[name] == wanted_protection(repo, repo.branches[i])
        }
    &&& forall|name: Seq<char>| #[trigger]
        branches.protections.contains_key(name) ==> branch_names(repo).contains(name)
}

/// A repository has no protection diffs if and only if every branch that is to be protected is
/// there with exactly its wanted protection, and every branch that is protected is to be
/// protected; also where a branch is named more than once.
pub proof fn law_no_protection_diffs_branch_by_branch(
    branches: Branches,
    repo: RepoView,
    states: Seq<BranchStateView>,
    protected: Seq<Seq<char>>,
)
    requires
        describes(branches, repo, states, protected),
    ensures
        branch_protection_diffs(repo, states, protected).len() == 0 <==> protected_as_wanted(
            branches,
            repo,
        ),
{
    let count = repo.branches.len() as int;
    let stray = stray_protections(repo, protected);
    assert(repo.branches.take(count) =~= repo.branches);
    lemma_no_wanted_diffs(repo, states, count);
    lemma_stray_protections(repo, protected);
    if branch_protection_diffs(repo, states, protected).len() == 0 {
        assert forall|i: int| 0 <= i < repo.branches.len() implies {
            let name = (#[trigger] repo.branches[i]).name;
            &&& branches.heads.contains_key(name)
            &&& branches.protections.contains_key(name)
            &&& branches.protections[name] == wanted_protection(repo, repo.branches[i])
        } by {
            assert(state_of(branches, repo.branches[i].name, states[i]));
        }
        assert forall|name: Seq<char>| #[trigger]
            branches.protections.contains_key(name) implies branch_names(repo).contains(name) by {
            assert(protected.contains(name));
            assert(!stray.contains(name));
        }
    }
    if protected_as_wanted(branches, repo) {
        assert forall|i: int| 0 <= i < count implies #[trigger] states[i] == (
        BranchStateView::Present {
            protection: Some(wanted_protection(repo, repo.branches[i])),
        }) by {
            assert(branches.protections.contains_key(repo.branches[i].name));
            assert(state_of(branches, repo.branches[i].name, states[i]));
        }
        if stray.len() > 0 {
            assert(stray.contains(stray[0]));
            assert(protected.contains(stray[0]));
            assert(branches.protections.contains_key(stray[0]));
        }
    }
}

/// A repository whose branches are named once each has no protection diffs if and only if its
/// branches have the wanted protections and no others.
pub proof fn law_no_protection_diffs(
    branches: Branches,
    repo: RepoView,
    states: Seq<BranchStateView>,
    protected: Seq<Seq<char>>,
)
    requires
        branch_names(repo).no_duplicates(),
        describes(branches, repo, states, protected),
    ensures
        branch_protection_diffs(repo, states, protected).len() == 0 <==> branches.protections
            == wanted_protections(repo),
{
    let count = repo.branches.len() as int;
    let names = branch_names(repo);
    let stray = stray_protections(repo, protected);
    assert(repo.branches.take(count) =~= repo.branches);
    lemma_no_wanted_diffs(repo, states, count);
    lemma_stray_protections(repo, protected);
    lemma_wanted_protections(repo);
    if branch_protection_diffs(repo, states, protected).len() == 0 {
        law_protection_diffs_converge(branches, repo, states, protected, repo.org, repo.name);
        assert(protection_requests(
            repo.org,
            repo.name,
            branch_protection_diffs(repo, states, protected),
        ) =~= Seq::empty());
    }
    if branches.protections == wanted_protections(repo) {
        assert forall|i: int| 0 <= i < count implies #[trigger] states[i] == (
        BranchStateView::Present {
            protection: Some(wanted_protection(repo, repo.branches[i])),
        }) by {
            assert(names[i] == repo.branches[i].name);
            assert(names.contains(repo.branches[i].name));
            assert(branches.protections.contains_key(repo.branches[i].name));
            assert(state_of(branches, repo.branches[i].name, states[i]));
        }
        if stray.len() > 0 {
            assert(stray.contains(stray[0]));
            assert(protected.contains(stray[0]));
            assert(branches.protections.contains_key(stray[0]));
            assert(wanted_protections(repo).contains_key(stray[0]));
        }
    }
}

/// After the protection diffs of a repository were carried out there are no more.
pub proof fn law_protection_diffs_settle(
    before: Branches,
    repo: RepoView,
    states: Seq<BranchStateView>,
    protected: Seq<Seq<char>>,
    later_states: Seq<BranchStateView>,
    later_protected: Seq<Seq<char>>,
    org: Seq<char>,
    name: Seq<char>,
)
    requires
        branch_names(repo).no_duplicates(),
        describes(before, repo, states, protected),
        describes(
            perform_all(
                before,
                protection_requests(org, name, branch_protection_diffs(repo, states, protected)),
            ),
            repo,
            later_states,
            later_protected,
        ),
    ensures
        branch_protection_diffs(repo, later_states, later_protected).len() == 0,
{
    law_protection_diffs_converge(before, repo, states, protected, org, name);
    law_no_protection_diffs(
        perform_all(
            before,
            protection_requests(org, name, branch_protection_diffs(repo, states, protected)),
        ),
        repo,
        later_states,
        later_protected,
    );
}

} // verus!
