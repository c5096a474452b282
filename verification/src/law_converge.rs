//! Laws about what synchronizing or creating a repository leads to.
use vstd::prelude::*;

use crate::api::BranchProtectionView;
use crate::branches::{branch_names, stray_protections};
use crate::call::{ReplyView, RequestView};
use crate::law_access::{
    law_new_repository_access, law_synchronized_access, listed_access, wanted_access, Access,
};
use crate::law_apply::{branch_requests, creation};
use crate::law_branches::{
    lemma_stray_protections, lemma_wanted_protections, wanted_protections, Branches,
};
use crate::law_repos::{
    changes_branches, changes_description, is_wanted, lemma_parts,
    lemma_perform_append, lemma_untouched, perform, perform_all, RepoState,
};
use crate::law_sync::{
    access_part, branch_part, branches_part, done, opening, removal_requests, repo_conversation,
    some_missing, Answers,
};
use crate::lists::{as_map, keys, lemma_lookup};
use crate::permissions::{stray_teams, stray_users, team_grants, user_grants};
use crate::repos::{initial_protections, repo_diff};
use crate::rules::wanted_protection;
use crate::sync_run::permission_requests;
use crate::team_data::RepoView;
use crate::api;

verus! {

/// The calls of a conversation.
pub open spec fn requests_of(conversation: Seq<(RequestView, ReplyView)>) -> Seq<RequestView> {
    conversation.map_values(|exchange: (RequestView, ReplyView)| exchange.0)
}

/// Whether GitHub answers with the truth about a repository that is there, or that was created
/// a moment ago.
pub open spec fn truthful(state: RepoState, wanted: RepoView, given: Answers) -> bool {
    &&& given.found matches Some(repo) ==> repo.description == state.description
    &&& state.access == listed_access(given.teams, given.users)
    &&& given.branches.len() == wanted.branches.len()
    &&& forall|i: int|
        0 <= i < wanted.branches.len() ==> (state.branches.heads.contains_key(
            (#[trigger] wanted.branches[i]).name,
        ) <==> given.branches[i] is Some)
    &&& forall|name: Seq<char>|
        state.branches.protections.contains_key(name) <==> #[trigger] given.protected.contains(name)
    &&& forall|name: Seq<char>| #[trigger]
        state.branches.protections.contains_key(name) ==> state.branches.heads.contains_key(name)
}

proof fn lemma_requests_append(
    a: Seq<(RequestView, ReplyView)>,
    b: Seq<(RequestView, ReplyView)>,
)
    ensures
        requests_of(a + b) == requests_of(a) + requests_of(b),
{
    assert(requests_of(a + b) =~= requests_of(a) + requests_of(b));
}

/// One call.
proof fn lemma_one(state: RepoState, request: RequestView)
    ensures
        perform_all(state, seq![request]) == perform(state, request),
{
    reveal_with_fuel(perform_all, 2);
    assert(seq![request].drop_last() =~= Seq::empty());
}

proof fn lemma_opening(before: RepoState, wanted: RepoView, given: Answers)
    requires
        given.found matches Some(repo) ==> repo.description == before.description,
    ensures
        perform_all(before, requests_of(opening(wanted, given))) == (RepoState {
            description: Some(wanted.description),
            ..before
        }),
{
    let talk = opening(wanted, given);
    let requests = requests_of(talk);
    lemma_one(before, requests[0]);
    assert(perform(before, requests[0]) == before);
    if talk.len() == 2 {
        lemma_one(before, requests[1]);
        lemma_perform_append(before, seq![requests[0]], seq![requests[1]]);
        assert(requests =~= seq![requests[0]] + seq![requests[1]]);
    } else {
        assert(requests =~= seq![requests[0]]);
    }
}

proof fn lemma_access(before: RepoState, wanted: RepoView, given: Answers)
    requires
        before.access == listed_access(given.teams, given.users),
    ensures
        perform_all(before, requests_of(access_part(wanted, given))) == (RepoState {
            access: wanted_access(wanted, before.access),
            ..before
        }),
{
    let requests = requests_of(access_part(wanted, given));
    let changes = permission_requests(wanted, given.teams, given.users);
    let reading = seq![requests[0], requests[1]];
    assert(requests =~= reading + changes);
    lemma_untouched(before, reading);
    assert(perform_all(before, reading) == before);
    lemma_perform_append(before, reading, changes);
    let a = team_grants(wanted).len();
    let b = user_grants(wanted).len();
    let c = stray_teams(wanted, given.teams).len();
    let d = stray_users(wanted, given.users).len();
    assert(changes.len() == a + b + c + d);
    assert forall|i: int| 0 <= i < changes.len() implies !changes_branches(#[trigger] changes[i])
        && !changes_description(changes[i]) by {
        if i < a {
        } else if i < a + b {
        } else if i < a + b + c {
        } else {
        }
    }
    lemma_untouched(before, changes);
    lemma_parts(before, changes);
    law_synchronized_access(wanted, given.teams, given.users);
}

/// Whether a branch is there once all branches were gone through.
pub open spec fn ends_up(before: RepoState, given: Answers, name: Seq<char>) -> bool {
    before.branches.heads.contains_key(name) || given.head is Some
}

/// What going through one branch does.
proof fn lemma_branch(state: RepoState, wanted: RepoView, given: Answers, index: int)
    requires
        0 <= index < wanted.branches.len(),
        state.branches.heads.contains_key(wanted.branches[index].name) <==> given.branches[index]
            is Some,
    ensures
        ({
            let name = wanted.branches[index].name;
            let after = perform_all(state, requests_of(branch_part(wanted, given, index)));
            let heads = if given.branches[index] is None && given.head is Some {
                state.branches.heads.insert(name, given.head->0)
            } else {
                state.branches.heads
            };
            after == (RepoState {
                branches: Branches {
                    heads,
                    protections: if heads.contains_key(name) {
                        state.branches.protections.insert(
                            name,
                            wanted_protection(wanted, wanted.branches[index]),
                        )
                    } else {
                        state.branches.protections
                    },
                },
                ..state
            })
        }),
{
    let org = given.repo().org;
    let repo = given.repo().name;
    let branch = wanted.branches[index].name;
    let look = RequestView::Branch { org, repo, branch };
    let ask = RequestView::Branch { org, repo, branch: given.repo().default_branch };
    let create = RequestView::CreateBranch { org, repo, branch, commit: given.head->0 };
    let protect = RequestView::UpdateBranchProtection {
        org,
        repo,
        branch,
        protection: wanted_protection(wanted, wanted.branches[index]),
    };
    let a = seq![look];
    let b = if given.branches[index] is None && !some_missing(given, index) {
        seq![ask]
    } else {
        Seq::empty()
    };
    let c = if given.branches[index] is None && given.head is Some {
        seq![create]
    } else {
        Seq::empty()
    };
    let d = seq![protect];
    assert(requests_of(branch_part(wanted, given, index)) =~= a + b + c + d);
    lemma_perform_append(state, a + b + c, d);
    lemma_perform_append(state, a + b, c);
    lemma_perform_append(state, a, b);
    lemma_one(state, look);
    assert(perform(state, look) == state);
    lemma_one(state, ask);
    assert(perform(state, ask) == state);
    assert(perform_all(state, b) == state);
    lemma_one(state, create);
    let created = perform_all(state, c);
    lemma_one(created, protect);
}

proof fn lemma_branches(before: RepoState, wanted: RepoView, given: Answers, count: int)
    requires
        branch_names(wanted).no_duplicates(),
        forall|i: int|
            0 <= i < wanted.branches.len() ==> (before.branches.heads.contains_key(
                (#[trigger] wanted.branches[i]).name,
            ) <==> given.branches[i] is Some),
        0 <= count <= wanted.branches.len(),
    ensures
        ({
            let after = perform_all(before, requests_of(branches_part(wanted, given, count)));
            &&& after.description == before.description
            &&& after.access == before.access
            &&& forall|i: int|
                0 <= i < count ==> {
                    let name = (#[trigger] wanted.branches[i]).name;
                    &&& after.branches.heads.contains_key(name) <==> ends_up(before, given, name)
                    &&& given.branches[i] is None && given.head is Some
                        ==> after.branches.heads[name] == given.head->0
                    &&& ends_up(before, given, name) ==> {
                        &&& after.branches.protections.contains_key(name)
                        &&& after.branches.protections[name] == wanted_protection(
                            wanted,
                            wanted.branches[i],
                        )
                    }
                    &&& !ends_up(before, given, name) ==> (
                    after.branches.protections.contains_key(name)
                        <==> before.branches.protections.contains_key(name))
                }
            &&& forall|other: Seq<char>|
                (forall|i: int| 0 <= i < count ==> (#[trigger] wanted.branches[i]).name != other)
                    ==> {
                    &&& #[trigger] after.branches.protections.contains_key(other)
                        <==> before.branches.protections.contains_key(other)
                    &&& after.branches.protections[other] == before.branches.protections[other]
                    &&& after.branches.heads.contains_key(other)
                        <==> before.branches.heads.contains_key(other)
                }
            &&& forall|branch: Seq<char>| #[trigger]
                before.branches.heads.contains_key(branch)
                    ==> after.branches.heads.contains_key(branch) && after.branches.heads[branch]
                    == before.branches.heads[branch]
        }),
    decreases count,
{
    let after = perform_all(before, requests_of(branches_part(wanted, given, count)));
    if count > 0 {
        let i = count - 1;
        let name = wanted.branches[i].name;
        lemma_branches(before, wanted, given, i);
        let first = branches_part(wanted, given, i);
        let last = branch_part(wanted, given, i);
        let middle = perform_all(before, requests_of(first));
        lemma_requests_append(first, last);
        lemma_perform_append(before, requests_of(first), requests_of(last));
        assert forall|j: int| 0 <= j < i implies (#[trigger] wanted.branches[j]).name != name by {
            assert(branch_names(wanted)[j] != branch_names(wanted)[i]);
        }
        assert(middle.branches.protections.contains_key(name)
            <==> before.branches.protections.contains_key(name));
        assert(before.branches.heads.contains_key(wanted.branches[i].name)
            <==> given.branches[i] is Some);
        lemma_branch(middle, wanted, given, i);
        assert forall|j: int| 0 <= j < count implies {
            let name = (#[trigger] wanted.branches[j]).name;
            &&& after.branches.heads.contains_key(name) <==> ends_up(before, given, name)
            &&& given.branches[j] is None && given.head is Some ==> after.branches.heads[name]
                == given.head->0
            &&& ends_up(before, given, name) ==> {
                &&& after.branches.protections.contains_key(name)
                &&& after.branches.protections[name] == wanted_protection(
                    wanted,
                    wanted.branches[j],
                )
            }
            &&& !ends_up(before, given, name) ==> (after.branches.protections.contains_key(name)
                <==> before.branches.protections.contains_key(name))
        } by {
            if j < i {
                assert(wanted.branches[j].name != name);
            }
        }
        assert forall|other: Seq<char>|
            (forall|j: int| 0 <= j < count ==> (#[trigger] wanted.branches[j]).name
                != other) implies {
            &&& #[trigger] after.branches.protections.contains_key(other)
                <==> before.branches.protections.contains_key(other)
            &&& after.branches.protections[other] == before.branches.protections[other]
            &&& after.branches.heads.contains_key(other)
                <==> before.branches.heads.contains_key(other)
        } by {
            assert(wanted.branches[i].name != other);
            assert(forall|j: int| 0 <= j < i ==> (#[trigger] wanted.branches[j]).name != other);
            assert(middle.branches.protections.contains_key(other)
                <==> before.branches.protections.contains_key(other));
        }
        assert forall|branch: Seq<char>| #[trigger] before.branches.heads.contains_key(
            branch,
        ) implies after.branches.heads.contains_key(branch) && after.branches.heads[branch]
            == before.branches.heads[branch] by {
            assert(middle.branches.heads.contains_key(branch));
        }
    } else {
        assert(requests_of(branches_part(wanted, given, count)) =~= Seq::empty());
    }
}

proof fn lemma_removals(state: RepoState, org: Seq<char>, repo: Seq<char>, names: Seq<Seq<char>>)
    ensures
        perform_all(
            state,
            names.map_values(
                |branch: Seq<char>| RequestView::DeleteBranchProtection { org, repo, branch },
            ),
        ) == (RepoState {
            branches: Branches {
                protections: state.branches.protections.remove_keys(names.to_set()),
                ..state.branches
            },
            ..state
        }),
    decreases names.len(),
{
    let requests = names.map_values(
        |branch: Seq<char>| RequestView::DeleteBranchProtection { org, repo, branch },
    );
    let protections = state.branches.protections;
    if names.len() == 0 {
        assert(protections.remove_keys(names.to_set()) =~= protections);
    } else {
        let earlier = names.drop_last();
        lemma_removals(state, org, repo, earlier);
        assert(requests.drop_last() =~= earlier.map_values(
            |branch: Seq<char>| RequestView::DeleteBranchProtection { org, repo, branch },
        ));
        assert forall|name: Seq<char>|
            names.to_set().contains(name) <==> earlier.to_set().contains(name) || name
                == names.last() by {
            if earlier.contains(name) {
                let i = choose|i: int| 0 <= i < earlier.len() && earlier[i] == name;
                assert(names[i] == name);
            }
            if names.contains(name) {
                let i = choose|i: int| 0 <= i < names.len() && names[i] == name;
                if i < earlier.len() {
                    assert(earlier[i] == name);
                }
            }
            if name == names.last() {
                assert(names[names.len() - 1] == name);
            }
        }
        assert(protections.remove_keys(earlier.to_set()).remove(names.last())
            =~= protections.remove_keys(names.to_set()));
    }
}

/// Whether a repository that was like `before` is as synchronizing it leaves it: with the wanted
/// description, exactly the wanted access, and exactly the wanted protections on those of its
/// branches that are there. A branch that was missing is there if and only if the main branch has
/// a head, and then at that head; the other branches are where they were. So the repository is as
/// it is wanted, unless a branch was missing and the main branch has no head.
pub open spec fn is_synchronized(
    wanted: RepoView,
    given: Answers,
    before: RepoState,
    after: RepoState,
) -> bool {
    &&& after.description == Some(wanted.description)
    &&& after.access == wanted_access(wanted, before.access)
    &&& after.branches.protections == wanted_protections(wanted).restrict(
        after.branches.heads.dom(),
    )
    &&& forall|name: Seq<char>| #[trigger]
        after.branches.heads.contains_key(name) <==> before.branches.heads.contains_key(
            name,
        ) || (given.head is Some && branch_names(wanted).contains(name))
    &&& forall|name: Seq<char>| #[trigger]
        before.branches.heads.contains_key(name) ==> after.branches.heads[name]
            == before.branches.heads[name]
    &&& forall|name: Seq<char>|
        after.branches.heads.contains_key(name) && !before.branches.heads.contains_key(name)
            ==> #[trigger] after.branches.heads[name] == given.head->0
    &&& given.head is Some || !some_missing(given, wanted.branches.len() as int)
        ==> is_wanted(wanted, before, after)
}

/// Synchronizing a repository whose branches are named once each gives it the wanted
/// description, exactly the wanted access, and exactly the wanted protections on those of its
/// branches that are there. A missing branch is there afterwards if and only if the main branch
/// has a head, and then at that head; the other branches stay where they are. So the repository
/// is as it is wanted, unless a branch is missing and the main branch has no head.
pub proof fn law_synchronization_converges(before: RepoState, wanted: RepoView, given: Answers)
    requires
        branch_names(wanted).no_duplicates(),
        truthful(before, wanted, given),
    ensures
        is_synchronized(
            wanted,
            given,
            before,
            perform_all(before, requests_of(repo_conversation(wanted, given))),
        ),
{
    let a = opening(wanted, given);
    let b = access_part(wanted, given);
    let c = seq![
        (
            RequestView::ProtectedBranches { org: given.repo().org, repo: given.repo().name },
            ReplyView::ProtectedBranches(given.protected),
        ),
    ];
    let count = wanted.branches.len() as int;
    let d = branches_part(wanted, given, count);
    let e = done(removal_requests(wanted, given));
    lemma_requests_append(a + b + c + d, e);
    lemma_requests_append(a + b + c, d);
    lemma_requests_append(a + b, c);
    lemma_requests_append(a, b);
    let ra = requests_of(a);
    let rb = requests_of(b);
    let rc = requests_of(c);
    let rd = requests_of(d);
    let re = requests_of(e);
    lemma_perform_append(before, ra + rb + rc + rd, re);
    lemma_perform_append(before, ra + rb + rc, rd);
    lemma_perform_append(before, ra + rb, rc);
    lemma_perform_append(before, ra, rb);
    lemma_opening(before, wanted, given);
    let after_a = perform_all(before, ra);
    lemma_access(after_a, wanted, given);
    let after_b = perform_all(after_a, rb);
    assert(rc =~= seq![c[0].0]);
    lemma_one(after_b, c[0].0);
    assert(perform_all(after_b, rc) == after_b);
    lemma_branches(after_b, wanted, given, count);
    let after_d = perform_all(after_b, rd);
    let stray = stray_protections(wanted, given.protected);
    assert(re =~= removal_requests(wanted, given));
    lemma_removals(after_d, given.repo().org, given.repo().name, stray);
    let after = perform_all(before, requests_of(repo_conversation(wanted, given)));
    assert(after == perform_all(after_d, re));
    lemma_stray_protections(wanted, given.protected);
    lemma_wanted_protections(wanted);
    let names = branch_names(wanted);
    assert forall|name: Seq<char>| !names.contains(name) implies forall|i: int|
        0 <= i < count ==> (#[trigger] wanted.branches[i]).name != name by {
        assert forall|i: int| 0 <= i < count implies (#[trigger] wanted.branches[i]).name
            != name by {
            assert(names[i] == wanted.branches[i].name);
        }
    }
    assert forall|name: Seq<char>| #[trigger]
        after.branches.heads.contains_key(name) <==> before.branches.heads.contains_key(name) || (
        given.head is Some && names.contains(name)) by {
        if names.contains(name) {
            let i = choose|i: int| 0 <= i < names.len() && names[i] == name;
            assert(wanted.branches[i].name == name);
        } else {
            assert(after_d.branches.protections.contains_key(name)
                <==> after_b.branches.protections.contains_key(name));
        }
    }
    let goal = wanted_protections(wanted).restrict(after.branches.heads.dom());
    assert forall|name: Seq<char>|
        after.branches.protections.contains_key(name) <==> goal.contains_key(name) by {
        assert(stray.contains(name) <==> given.protected.contains(name) && !names.contains(name));
        assert(given.protected.contains(name) <==> before.branches.protections.contains_key(name));
        if names.contains(name) {
            let i = choose|i: int| 0 <= i < names.len() && names[i] == name;
            assert(wanted.branches[i].name == name);
            assert(wanted_protections(wanted).contains_key(name));
        } else {
            assert(after_d.branches.protections.contains_key(name)
                <==> after_b.branches.protections.contains_key(name));
        }
    }
    assert forall|name: Seq<char>| goal.contains_key(name) implies after.branches.protections[name]
        == goal[name] by {
        assert(wanted_protections(wanted).contains_key(name));
        let i = choose|i: int| 0 <= i < names.len() && names[i] == name;
        assert(wanted.branches[i].name == name);
    }
    assert(after.branches.protections =~= goal);
    assert forall|name: Seq<char>|
        after.branches.heads.contains_key(name) && !before.branches.heads.contains_key(
            name,
        ) implies #[trigger] after.branches.heads[name] == given.head->0 by {
        let i = choose|i: int| 0 <= i < names.len() && names[i] == name;
        assert(wanted.branches[i].name == name);
    }
    if given.head is Some || !some_missing(given, count) {
        assert forall|name: Seq<char>| names.contains(
            name,
        ) implies after.branches.heads.contains_key(name) by {
            let i = choose|i: int| 0 <= i < names.len() && names[i] == name;
            assert(wanted.branches[i].name == name);
            if !(given.head is Some) {
                assert(given.branches[i] is Some);
            }
        }
        assert(goal =~= wanted_protections(wanted));
    }
}

/// What creating branches at a commit and protecting them does.
proof fn lemma_branch_requests(
    state: RepoState,
    org: Seq<char>,
    repo: Seq<char>,
    protections: Seq<(Seq<char>, BranchProtectionView)>,
    commit: Seq<char>,
)
    ensures
        ({
            let after = perform_all(state, branch_requests(org, repo, protections, commit));
            &&& after.description == state.description
            &&& after.access == state.access
            &&& after.branches.protections == state.branches.protections.union_prefer_right(
                as_map(protections),
            )
            &&& forall|name: Seq<char>| #[trigger]
                after.branches.heads.contains_key(name) <==> state.branches.heads.contains_key(name)
                    || keys(protections).contains(name)
            &&& forall|name: Seq<char>| #[trigger]
                keys(protections).contains(name) ==> after.branches.heads[name] == commit
            &&& forall|name: Seq<char>| #[trigger]
                state.branches.heads.contains_key(name) && !keys(protections).contains(name)
                    ==> after.branches.heads[name] == state.branches.heads[name]
        }),
    decreases protections.len(),
{
    let requests = branch_requests(org, repo, protections, commit);
    let after = perform_all(state, requests);
    if protections.len() == 0 {
        assert(state.branches.protections.union_prefer_right(as_map(protections))
            =~= state.branches.protections);
    } else {
        let earlier = protections.drop_last();
        let branch = protections.last().0;
        let protection = protections.last().1;
        lemma_branch_requests(state, org, repo, earlier, commit);
        let create = RequestView::CreateBranch { org, repo, branch, commit };
        let protect = RequestView::UpdateBranchProtection { org, repo, branch, protection };
        let first = branch_requests(org, repo, earlier, commit);
        let middle = perform_all(state, first);
        lemma_perform_append(state, first + seq![create], seq![protect]);
        lemma_perform_append(state, first, seq![create]);
        assert(requests =~= first + seq![create] + seq![protect]);
        lemma_one(middle, create);
        lemma_one(perform(middle, create), protect);
        assert(keys(protections) =~= keys(earlier).push(branch));
        assert forall|name: Seq<char>| #[trigger]
            keys(protections).contains(name) <==> keys(earlier).contains(name) || name == branch by {
            lemma_lookup(protections, name);
            lemma_lookup(earlier, name);
        }
        assert(after.branches.protections =~= state.branches.protections.union_prefer_right(
            as_map(protections),
        ));
    }
}

/// A repository that has nothing but a default branch, at a commit.
pub open spec fn fresh_repo(repo: api::RepoView, head: Seq<char>) -> RepoState {
    RepoState {
        description: None,
        access: Access { teams: Map::empty(), users: Map::empty() },
        branches: Branches {
            heads: map![repo.default_branch => head],
            protections: Map::empty(),
        },
    }
}

/// Creating a repository, which has nothing but a default branch at first, makes it as it is
/// wanted, with all its branches at the head of the default branch.
pub proof fn law_creation_converges(
    wanted: RepoView,
    repo: api::RepoView,
    head: Seq<char>,
    updated: spec_fn(RequestView) -> bool,
)
    ensures
        repo_diff(wanted, None) is Create,
        ({
            let fresh = fresh_repo(repo, head);
            let after = perform_all(
                fresh,
                requests_of(creation(repo_diff(wanted, None)->Create_0, repo, head, updated)),
            );
            &&& is_wanted(wanted, fresh, after)
            &&& forall|name: Seq<char>| #[trigger]
                after.branches.heads.contains_key(name) <==> name == repo.default_branch
                    || branch_names(wanted).contains(name)
            &&& forall|name: Seq<char>| #[trigger]
                after.branches.heads.contains_key(name) ==> after.branches.heads[name] == head
        }),
{
    let create = repo_diff(wanted, None)->Create_0;
    let fresh = fresh_repo(repo, head);
    let make = RequestView::CreateRepo {
        org: create.org,
        name: create.name,
        description: create.description,
    };
    let ask = RequestView::Branch {
        org: create.org,
        repo: create.name,
        branch: repo.default_branch,
    };
    let b = create.permission_requests();
    let d = branch_requests(create.org, create.name, create.branch_protections, head);
    let requests = requests_of(creation(create, repo, head, updated));
    assert(requests =~= seq![make] + b + seq![ask] + d);
    lemma_perform_append(fresh, seq![make] + b + seq![ask], d);
    lemma_perform_append(fresh, seq![make] + b, seq![ask]);
    lemma_perform_append(fresh, seq![make], b);
    lemma_one(fresh, make);
    let after_a = perform(fresh, make);
    assert forall|i: int| 0 <= i < b.len() implies !changes_branches(#[trigger] b[i])
        && !changes_description(b[i]) by {}
    lemma_untouched(after_a, b);
    lemma_parts(after_a, b);
    law_new_repository_access(wanted);
    let after_b = perform_all(after_a, b);
    lemma_one(after_b, ask);
    assert(perform(after_b, ask) == after_b);
    lemma_branch_requests(after_b, create.org, create.name, create.branch_protections, head);
    let after = perform_all(fresh, requests);
    assert(keys(initial_protections(wanted)) =~= branch_names(wanted));
    assert(after.branches.protections =~= wanted_protections(wanted));
    assert forall|name: Seq<char>| #[trigger] after.branches.heads.contains_key(
        name,
    ) implies after.branches.heads[name] == head by {
        if !branch_names(wanted).contains(name) {
            assert(after_b.branches.heads.contains_key(name));
        }
    }
}

} // verus!
