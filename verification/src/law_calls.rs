//! Laws about the calls that carry out a diff: what each of them names and sets.
use vstd::prelude::*;

use crate::apply::{
    member_request, member_requests, new_branch_steps, protection_requests, ApplyStepView,
};
use crate::apply_run::ApplyRunView;
use crate::call::{answers, reads, ReplyView, RequestView};
use crate::diff::{
    BranchProtectionDiffOperationView, BranchProtectionDiffView, CreateRepoDiffView,
    CreateTeamDiffView, DeleteTeamDiffView, EditTeamDiffView, MemberDiff, RepoCollaboratorView,
    RepoDiffView, RepoPermissionAssignmentDiffView, RepoPermissionDiff, TeamDiffView,
    UpdateRepoDiffView,
};
use crate::diff_run::{DiffRunView, DiffStageView};
use crate::law_changes::{law_changed_repo, law_changed_team, law_new_repo, law_new_team};
use crate::law_world::{repo_address, team_address};
use crate::repos::{repo_diff, ActualRepoView};
use crate::rules::wanted_protection;
use crate::sync::{github_teams, SyncGitHubView};
use crate::sync_run::{SyncRunView, SyncStageView};
use crate::team_data::{GitHubTeamView, RepoView};
use crate::teams::{team_diff, ActualTeamView};

verus! {

/// A call that reads is answered with what it asks for, the creation of a repository with the
/// repository, the protection of a branch with whether the branch is there, and every other call
/// with the word that it is done.
pub proof fn law_answers(request: RequestView, reply: ReplyView)
    ensures
        request is OrgTeams ==> (answers(request, reply) <==> reply is OrgTeams),
        request is Team ==> (answers(request, reply) <==> reply is Team),
        request is TeamMemberships ==> (answers(request, reply) <==> reply is TeamMemberships),
        request is Repo ==> (answers(request, reply) <==> reply is Repo),
        request is RepoTeams ==> (answers(request, reply) <==> reply is RepoTeams),
        request is RepoCollaborators ==> (answers(request, reply) <==> reply is RepoCollaborators),
        request is ProtectedBranches ==> (answers(request, reply) <==> reply is ProtectedBranches),
        request is Branch ==> (answers(request, reply) <==> reply is Branch),
        request is BranchProtection ==> (answers(request, reply) <==> reply is BranchProtection),
        request is CreateRepo ==> (answers(request, reply) <==> reply is CreatedRepo),
        request is UpdateBranchProtection ==> (answers(request, reply) <==> reply
            is ProtectionUpdated),
        answers(request, ReplyView::Done) <==> !(reads(request) || request is CreateRepo || request
            is UpdateBranchProtection),
        answers(request, ReplyView::Done) ==> (answers(request, reply) <==> reply is Done),
        reads(request) <==> team_address(request) is None && repo_address(request) is None,
{
}

/// A comparison asks about the team whose turn it is, or about the repository whose turn it is and
/// the branch of it: under the wanted names for the team, the repository, the access to it and its
/// branches, and under the names that were found for its protections and its main branch.
pub proof fn law_comparing_asks(run: DiffRunView)
    ensures
        ({
            let team = github_teams(run.sync.teams)[run.team_diffs.len() as int];
            let repo = run.sync.repos[run.repo_diffs.len() as int];
            match run.stage {
                DiffStageView::OrgTeams => run.pending() == Some(
                    RequestView::OrgTeams { org: team.org },
                ),
                DiffStageView::Team => run.pending() == Some(
                    RequestView::Team { org: team.org, name: team.name },
                ),
                DiffStageView::Memberships { team: there } => run.pending() == Some(
                    RequestView::TeamMemberships { org: team.org, of_team: there },
                ),
                DiffStageView::Repo => run.pending() == Some(
                    RequestView::Repo { org: repo.org, name: repo.name },
                ),
                DiffStageView::RepoTeams { .. } => run.pending() == Some(
                    RequestView::RepoTeams { org: repo.org, repo: repo.name },
                ),
                DiffStageView::RepoCollaborators { .. } => run.pending() == Some(
                    RequestView::RepoCollaborators { org: repo.org, repo: repo.name },
                ),
                DiffStageView::ProtectedBranches { repo: there, .. } => run.pending() == Some(
                    RequestView::ProtectedBranches { org: there.org, repo: there.name },
                ),
                DiffStageView::Branch { seen, .. } => run.pending() == Some(
                    RequestView::Branch {
                        org: repo.org,
                        repo: repo.name,
                        branch: repo.branches[seen.branches.len() as int].name,
                    },
                ),
                DiffStageView::Head { seen } => run.pending() == Some(
                    RequestView::Branch {
                        org: seen.repo.org,
                        repo: seen.repo.name,
                        branch: seen.repo.default_branch,
                    },
                ),
                DiffStageView::Protection { seen, .. } => run.pending() == Some(
                    RequestView::BranchProtection {
                        org: seen.repo.org,
                        repo: seen.repo.name,
                        branch: repo.branches[seen.branches.len() as int].name,
                    },
                ),
                DiffStageView::Done | DiffStageView::Failed => run.pending() is None,
            }
        }),
{
}

/// Carrying out a diff makes the call of the step whose turn it is: as it stands, about the default
/// branch of the repository that was created last, or at the head that was found last. After the
/// last step, and after a call failed, it makes none. Of a reply it keeps the default branch of a
/// created repository and the head of a branch.
pub proof fn law_applying_asks(run: ApplyRunView, reply: ReplyView)
    ensures
        run.failed || run.sent >= run.steps.len() <==> run.pending() is None,
        run.pending() is Some ==> match run.steps[run.sent] {
            ApplyStepView::Send(request) => run.pending() == Some(request),
            ApplyStepView::FindHead { org, repo } => run.pending() == Some(
                RequestView::Branch { org, repo, branch: run.default_branch->0 },
            ),
            ApplyStepView::BranchAtHead { org, repo, branch } => run.pending() == Some(
                RequestView::CreateBranch { org, repo, branch, commit: run.head->0 },
            ),
        },
        run.next(reply).steps == run.steps,
        run.next(reply).sent == run.sent + 1,
        run.next(reply).failed == run.failed,
        run.next(reply).default_branch == if reply is CreatedRepo {
            Some(reply->CreatedRepo_0.default_branch)
        } else {
            run.default_branch
        },
        run.next(reply).head == if reply is Branch && reply->Branch_0 is Some {
            reply->Branch_0
        } else {
            run.head
        },
{
}

/// A synchronization asks about and changes the repository whose turn it is: under the wanted names
/// when it is looked for and created and when the access to it is read, and under the names that
/// were found for everything else. What it sets are the wanted description, the head of the main
/// branch, and the wanted protection of the branch whose turn it is.
pub proof fn law_synchronizing_asks(run: SyncRunView)
    ensures
        ({
            let wanted = run.sync.repos[run.done];
            match run.stage {
                SyncStageView::Repo => run.pending() == Some(
                    RequestView::Repo { org: wanted.org, name: wanted.name },
                ),
                SyncStageView::CreateRepo => run.pending() == Some(
                    RequestView::CreateRepo {
                        org: wanted.org,
                        name: wanted.name,
                        description: wanted.description,
                    },
                ),
                SyncStageView::EditRepo { repo } => run.pending() == Some(
                    RequestView::EditRepo {
                        org: repo.org,
                        name: repo.name,
                        description: wanted.description,
                    },
                ),
                SyncStageView::RepoTeams { .. } => run.pending() == Some(
                    RequestView::RepoTeams { org: wanted.org, repo: wanted.name },
                ),
                SyncStageView::RepoCollaborators { .. } => run.pending() == Some(
                    RequestView::RepoCollaborators { org: wanted.org, repo: wanted.name },
                ),
                SyncStageView::Permissions { requests, sent, .. } => run.pending() == Some(
                    requests[sent],
                ),
                SyncStageView::ProtectedBranches { repo } => run.pending() == Some(
                    RequestView::ProtectedBranches { org: repo.org, repo: repo.name },
                ),
                SyncStageView::Branch { progress } => run.pending() == Some(
                    RequestView::Branch {
                        org: progress.repo.org,
                        repo: progress.repo.name,
                        branch: wanted.branches[progress.index].name,
                    },
                ),
                SyncStageView::Head { progress } => run.pending() == Some(
                    RequestView::Branch {
                        org: progress.repo.org,
                        repo: progress.repo.name,
                        branch: progress.repo.default_branch,
                    },
                ),
                SyncStageView::CreateBranch { progress } => run.pending() == Some(
                    RequestView::CreateBranch {
                        org: progress.repo.org,
                        repo: progress.repo.name,
                        branch: wanted.branches[progress.index].name,
                        commit: progress.head->0->0,
                    },
                ),
                SyncStageView::Protection { progress } => run.pending() == Some(
                    RequestView::UpdateBranchProtection {
                        org: progress.repo.org,
                        repo: progress.repo.name,
                        branch: wanted.branches[progress.index].name,
                        protection: wanted_protection(wanted, wanted.branches[progress.index]),
                    },
                ),
                SyncStageView::Unprotect { repo, stray, removed } => run.pending() == Some(
                    RequestView::DeleteBranchProtection {
                        org: repo.org,
                        repo: repo.name,
                        branch: stray[removed],
                    },
                ),
                SyncStageView::Done | SyncStageView::Failed => run.pending() is None,
            }
        }),
{
}

/// A comparison goes on with exactly the replies that answer its call, provided that the main
/// branch has a head where that is asked for, and that the usernames of all members of a team are
/// known when the team is compared.
pub proof fn law_comparing_accepts(run: DiffRunView, reply: ReplyView)
    ensures
        run.pending() is None ==> !run.accepts(reply),
        run.pending() matches Some(request) ==> (run.accepts(reply) <==> {
            let team = github_teams(run.sync.teams)[run.team_diffs.len() as int];
            &&& answers(request, reply)
            &&& run.stage is Head ==> reply->Branch_0 is Some
            &&& request is TeamMemberships || reply == ReplyView::Team(None) ==> forall|i: int|
                0 <= i < team.members.len() ==> run.sync.usernames.contains_key(
                    #[trigger] team.members[i],
                )
        }),
{
}

/// Carrying out a diff goes on with exactly the replies that answer its call, provided that the
/// default branch of a new repository has a head.
pub proof fn law_applying_accepts(run: ApplyRunView, reply: ReplyView)
    ensures
        run.pending() is None ==> !run.accepts(reply),
        run.pending() matches Some(request) ==> (run.accepts(reply) <==> {
            &&& answers(request, reply)
            &&& run.steps[run.sent] is FindHead ==> reply->Branch_0 is Some
        }),
{
}

/// A synchronization goes on with exactly the replies that answer its call.
pub proof fn law_synchronizing_accepts(run: SyncRunView, reply: ReplyView)
    ensures
        run.pending() is None ==> !run.accepts(reply),
        run.pending() matches Some(request) ==> (run.accepts(reply) <==> answers(request, reply)),
{
}

/// A member that is added or changes its role is set in the new role, a member that is deleted is
/// removed, and nothing is called for a member that stays the same.
pub proof fn law_member_call(
    diff: MemberDiff,
    org: Seq<char>,
    team: Seq<char>,
    member: Seq<char>,
)
    ensures
        member_request(diff, org, team, member) is None <==> diff is Noop,
        diff matches MemberDiff::Create(role) ==> member_request(diff, org, team, member) == Some(
            RequestView::SetTeamMembership { org, team, user: member, role },
        ),
        diff matches MemberDiff::ChangeRole((_, role)) ==> member_request(diff, org, team, member)
            == Some(RequestView::SetTeamMembership { org, team, user: member, role }),
        diff is Delete ==> member_request(diff, org, team, member) == Some(
            RequestView::RemoveTeamMembership { org, team, user: member },
        ),
{
}

/// The calls for some members are those for the first of them, followed by those for the others;
/// and for one member, the call that its change needs.
pub proof fn law_member_calls(
    org: Seq<char>,
    team: Seq<char>,
    a: Seq<(Seq<char>, MemberDiff)>,
    b: Seq<(Seq<char>, MemberDiff)>,
    member: Seq<char>,
    diff: MemberDiff,
)
    ensures
        member_requests(org, team, a + b) == member_requests(org, team, a) + member_requests(
            org,
            team,
            b,
        ),
        member_requests(org, team, seq![(member, diff)]) == match member_request(
            diff,
            org,
            team,
            member,
        ) {
            Some(request) => seq![request],
            None => Seq::empty(),
        },
    decreases b.len(),
{
    if b.len() == 0 {
        assert(a + b =~= a);
        assert(member_requests(org, team, a) + Seq::empty() =~= member_requests(org, team, a));
    } else {
        assert((a + b).drop_last() =~= a + b.drop_last());
        law_member_calls(org, team, a, b.drop_last(), member, diff);
        assert(member_requests(org, team, a + b) =~= member_requests(org, team, a)
            + member_requests(org, team, b));
    }
    assert(seq![(member, diff)].drop_last() =~= Seq::empty());
    reveal_with_fuel(member_requests, 2);
}

/// A new team is created with its description and its privacy, and then each of its members is set
/// in its role, in their order.
pub proof fn law_new_team_calls(create: CreateTeamDiffView)
    ensures
        create.requests().len() == 1 + create.members.len(),
        create.requests()[0] == (RequestView::CreateTeam {
            org: create.org,
            name: create.name,
            description: create.description,
            privacy: create.privacy,
        }),
        forall|i: int|
            0 <= i < create.members.len() ==> create.requests()[1 + i] == (
            RequestView::SetTeamMembership {
                org: create.org,
                team: create.name,
                user: (#[trigger] create.members[i]).0,
                role: create.members[i].1,
            }),
        TeamDiffView::Create(create).requests() == create.requests(),
{
}

/// A team that is edited gets exactly those new properties that differ, by its first call, and
/// then come the calls for its members.
pub proof fn law_edit_team_calls(edit: EditTeamDiffView)
    ensures
        edit.requests().len() > 0,
        edit.requests()[0] matches RequestView::EditTeam {
            org,
            name,
            new_name,
            new_description,
            new_privacy,
        } && {
            &&& org == edit.org
            &&& name == edit.name
            &&& new_name == edit.name_diff
            &&& new_description is Some <==> edit.description_diff is Some
            &&& edit.description_diff matches Some(change) ==> new_description == Some(change.1)
            &&& new_privacy is Some <==> edit.privacy_diff is Some
            &&& edit.privacy_diff matches Some(change) ==> new_privacy == Some(change.1)
        },
        edit.requests().skip(1) == member_requests(edit.org, edit.name, edit.member_diffs),
        TeamDiffView::Edit(edit).requests() == edit.requests(),
{
    assert(edit.requests().skip(1) =~= member_requests(edit.org, edit.name, edit.member_diffs));
}

/// A team that is deleted is deleted by one call.
pub proof fn law_delete_team_calls(delete: DeleteTeamDiffView)
    ensures
        delete.requests().len() == 1,
        delete.requests()[0] == (RequestView::DeleteTeam { org: delete.org, name: delete.name }),
        TeamDiffView::Delete(delete).requests() == delete.requests(),
{
}

/// An access that is given or changed is set to the new level, and one that is taken away is
/// removed; of a team or of a user, as the collaborator is one or the other.
pub proof fn law_permission_call(
    diff: RepoPermissionAssignmentDiffView,
    org: Seq<char>,
    repo: Seq<char>,
)
    ensures
        diff.collaborator matches RepoCollaboratorView::Team(team) ==> match diff.diff {
            RepoPermissionDiff::Create(permission)
            | RepoPermissionDiff::Update(_, permission) => diff.request(org, repo) == (
            RequestView::UpdateTeamRepoPermissions { org, repo, team, permission }),
            RepoPermissionDiff::Delete(_) => diff.request(org, repo) == (
            RequestView::RemoveTeamFromRepo { org, repo, team }),
        },
        diff.collaborator matches RepoCollaboratorView::User(user) ==> match diff.diff {
            RepoPermissionDiff::Create(permission)
            | RepoPermissionDiff::Update(_, permission) => diff.request(org, repo) == (
            RequestView::UpdateUserRepoPermissions { org, repo, user, permission }),
            RepoPermissionDiff::Delete(_) => diff.request(org, repo) == (
            RequestView::RemoveCollaboratorFromRepo { org, repo, user }),
        },
{
}

/// A protection that is created or changed is set to the new one by the last call, which is the
/// only one unless the branch has to be created at its commit first; and one that is not to be is
/// removed by one call.
pub proof fn law_protection_call(
    diff: BranchProtectionDiffView,
    org: Seq<char>,
    repo: Seq<char>,
)
    ensures
        diff.operation matches BranchProtectionDiffOperationView::CreateWithBranch(
            protection,
            commit,
        ) ==> {
            &&& diff.requests(org, repo).len() == 2
            &&& diff.requests(org, repo)[0] == (RequestView::CreateBranch {
                org,
                repo,
                branch: diff.name,
                commit,
            })
            &&& diff.requests(org, repo)[1] == (RequestView::UpdateBranchProtection {
                org,
                repo,
                branch: diff.name,
                protection,
            })
        },
        diff.operation matches BranchProtectionDiffOperationView::Create(protection) ==> {
            &&& diff.requests(org, repo).len() == 1
            &&& diff.requests(org, repo)[0] == (RequestView::UpdateBranchProtection {
                org,
                repo,
                branch: diff.name,
                protection,
            })
        },
        diff.operation matches BranchProtectionDiffOperationView::Update(_, protection) ==> {
            &&& diff.requests(org, repo).len() == 1
            &&& diff.requests(org, repo)[0] == (RequestView::UpdateBranchProtection {
                org,
                repo,
                branch: diff.name,
                protection,
            })
        },
        diff.operation is Delete ==> {
            &&& diff.requests(org, repo).len() == 1
            &&& diff.requests(org, repo)[0] == (RequestView::DeleteBranchProtection {
                org,
                repo,
                branch: diff.name,
            })
        },
{
}

/// The calls for some protections are those for the first of them, followed by those for the
/// others; and for one protection, those that its change needs.
pub proof fn law_protection_calls(
    org: Seq<char>,
    repo: Seq<char>,
    a: Seq<BranchProtectionDiffView>,
    b: Seq<BranchProtectionDiffView>,
    diff: BranchProtectionDiffView,
)
    ensures
        protection_requests(org, repo, a + b) == protection_requests(org, repo, a)
            + protection_requests(org, repo, b),
        protection_requests(org, repo, seq![diff]) == diff.requests(org, repo),
    decreases b.len(),
{
    if b.len() == 0 {
        assert(a + b =~= a);
        assert(protection_requests(org, repo, a) + Seq::empty() =~= protection_requests(
            org,
            repo,
            a,
        ));
    } else {
        assert((a + b).drop_last() =~= a + b.drop_last());
        law_protection_calls(org, repo, a, b.drop_last(), diff);
        assert(protection_requests(org, repo, a + b) =~= protection_requests(org, repo, a)
            + protection_requests(org, repo, b));
    }
    assert(seq![diff].drop_last() =~= Seq::empty());
    reveal_with_fuel(protection_requests, 2);
    assert(Seq::empty() + diff.requests(org, repo) =~= diff.requests(org, repo));
}

/// The update of a repository sets the new description, if there is one, then changes the access,
/// one call for each change, and then the protections; the name is left alone.
pub proof fn law_update_calls(update: UpdateRepoDiffView)
    ensures
        ({
            let requests = update.requests();
            let described: int = if update.description_diff is Some {
                1
            } else {
                0
            };
            let protected = described + update.permission_diffs.len();
            &&& requests.len() >= protected
            &&& update.description_diff matches Some(change) ==> requests[0] == (
            RequestView::EditRepo { org: update.org, name: update.name, description: change.1 })
            &&& forall|i: int|
                0 <= i < update.permission_diffs.len() ==> requests[described + i] == (
                #[trigger] update.permission_diffs[i]).request(update.org, update.name)
            &&& requests.skip(protected) == protection_requests(
                update.org,
                update.name,
                update.branch_protection_diffs,
            )
        }),
{
    let requests = update.requests();
    let described: int = if update.description_diff is Some {
        1
    } else {
        0
    };
    assert(requests.skip(described + update.permission_diffs.len()) =~= protection_requests(
        update.org,
        update.name,
        update.branch_protection_diffs,
    ));
}

proof fn lemma_new_branch_steps(create: CreateRepoDiffView, count: int)
    requires
        0 <= count <= create.branch_protections.len(),
    ensures
        ({
            let steps = new_branch_steps(
                create.org,
                create.name,
                create.branch_protections.take(count),
            );
            &&& steps.len() == 2 * count
            &&& forall|i: int|
                0 <= i < count ==> {
                    &&& steps[2 * i] == (ApplyStepView::BranchAtHead {
                        org: create.org,
                        repo: create.name,
                        branch: (#[trigger] create.branch_protections[i]).0,
                    })
                    &&& steps[2 * i + 1] == ApplyStepView::Send(
                        RequestView::UpdateBranchProtection {
                            org: create.org,
                            repo: create.name,
                            branch: create.branch_protections[i].0,
                            protection: create.branch_protections[i].1,
                        },
                    )
                }
        }),
    decreases count,
{
    if count > 0 {
        let all = create.branch_protections.take(count);
        lemma_new_branch_steps(create, count - 1);
        assert(all.drop_last() =~= create.branch_protections.take(count - 1));
        assert(all.last() == create.branch_protections[count - 1]);
    }
}

/// A new repository is created with its description; then each access is given, in their order;
/// then the head of its default branch is looked for; and then each of its branches is created
/// there and protected, in their order.
pub proof fn law_new_repo_steps(create: CreateRepoDiffView)
    ensures
        ({
            let steps = create.steps();
            let found = 1 + create.permissions.len();
            &&& steps.len() == found + 1 + 2 * create.branch_protections.len()
            &&& steps[0] == ApplyStepView::Send(
                RequestView::CreateRepo {
                    org: create.org,
                    name: create.name,
                    description: create.description,
                },
            )
            &&& forall|i: int|
                0 <= i < create.permissions.len() ==> steps[1 + i] == ApplyStepView::Send(
                    match (#[trigger] create.permissions[i]).0 {
                        RepoCollaboratorView::Team(team) => RequestView::UpdateTeamRepoPermissions {
                            org: create.org,
                            repo: create.name,
                            team,
                            permission: create.permissions[i].1,
                        },
                        RepoCollaboratorView::User(user) => RequestView::UpdateUserRepoPermissions {
                            org: create.org,
                            repo: create.name,
                            user,
                            permission: create.permissions[i].1,
                        },
                    },
                )
            &&& steps[found as int] == (ApplyStepView::FindHead {
                org: create.org,
                repo: create.name,
            })
            &&& forall|i: int|
                0 <= i < create.branch_protections.len() ==> {
                    &&& steps[found + 1 + 2 * i] == (ApplyStepView::BranchAtHead {
                        org: create.org,
                        repo: create.name,
                        branch: (#[trigger] create.branch_protections[i]).0,
                    })
                    &&& steps[found + 2 + 2 * i] == ApplyStepView::Send(
                        RequestView::UpdateBranchProtection {
                            org: create.org,
                            repo: create.name,
                            branch: create.branch_protections[i].0,
                            protection: create.branch_protections[i].1,
                        },
                    )
                }
            &&& RepoDiffView::Create(create).steps() == steps
        }),
{
    let n = create.branch_protections.len() as int;
    let found = 1 + create.permissions.len();
    let steps = create.steps();
    let last = new_branch_steps(create.org, create.name, create.branch_protections);
    assert(create.branch_protections.take(n) =~= create.branch_protections);
    lemma_new_branch_steps(create, n);
    assert forall|i: int| 0 <= i < n implies {
        &&& steps[found + 1 + 2 * i] == (ApplyStepView::BranchAtHead {
            org: create.org,
            repo: create.name,
            branch: (#[trigger] create.branch_protections[i]).0,
        })
        &&& steps[found + 2 + 2 * i] == ApplyStepView::Send(
            RequestView::UpdateBranchProtection {
                org: create.org,
                repo: create.name,
                branch: create.branch_protections[i].0,
                protection: create.branch_protections[i].1,
            },
        )
    } by {
        assert(steps[found + 1 + 2 * i] == last[2 * i]);
        assert(steps[found + 2 + 2 * i] == last[2 * i + 1]);
    }
}

/// The update of a repository is carried out by exactly the calls of the update, in their order.
pub proof fn law_update_steps(update: UpdateRepoDiffView)
    ensures
        RepoDiffView::Update(update).steps().len() == update.requests().len(),
        forall|i: int|
            0 <= i < update.requests().len() ==> RepoDiffView::Update(update).steps()[i]
                == ApplyStepView::Send(#[trigger] update.requests()[i]),
{
}

proof fn lemma_protection_calls_address(
    org: Seq<char>,
    repo: Seq<char>,
    diffs: Seq<BranchProtectionDiffView>,
)
    ensures
        forall|i: int|
            0 <= i < protection_requests(org, repo, diffs).len() ==> repo_address(
                #[trigger] protection_requests(org, repo, diffs)[i],
            ) == Some((org, repo)),
    decreases diffs.len(),
{
    if diffs.len() > 0 {
        let earlier = protection_requests(org, repo, diffs.drop_last());
        let all = protection_requests(org, repo, diffs);
        lemma_protection_calls_address(org, repo, diffs.drop_last());
        law_protection_call(diffs.last(), org, repo);
        assert forall|i: int| 0 <= i < all.len() implies repo_address(#[trigger] all[i]) == Some(
            (org, repo),
        ) by {
            if i < earlier.len() {
                assert(all[i] == earlier[i]);
            } else {
                assert(all[i] == diffs.last().requests(org, repo)[i - earlier.len()]);
            }
        }
    }
}

/// Every call that carries out the update of a repository changes the repository that was found,
/// in the organization in which it is wanted, and no other.
pub proof fn law_update_calls_reach_the_repository(wanted: RepoView, actual: ActualRepoView)
    ensures
        ({
            let requests = repo_diff(wanted, Some(actual))->Update_0.requests();
            forall|i: int|
                0 <= i < requests.len() ==> repo_address(#[trigger] requests[i]) == Some(
                    (wanted.org, actual.repo.name),
                )
        }),
{
    let update = repo_diff(wanted, Some(actual))->Update_0;
    let requests = update.requests();
    let described: int = if update.description_diff is Some {
        1
    } else {
        0
    };
    let protected = described + update.permission_diffs.len();
    let rest = protection_requests(update.org, update.name, update.branch_protection_diffs);
    law_changed_repo(wanted, actual);
    law_update_calls(update);
    lemma_protection_calls_address(update.org, update.name, update.branch_protection_diffs);
    assert forall|i: int| 0 <= i < requests.len() implies repo_address(#[trigger] requests[i])
        == Some((wanted.org, actual.repo.name)) by {
        if i < described {
        } else if i < protected {
            let diff = update.permission_diffs[i - described];
            law_permission_call(diff, update.org, update.name);
            assert(requests[described + (i - described)] == diff.request(update.org, update.name));
        } else {
            assert(requests.skip(protected)[i - protected] == requests[i]);
            assert(rest[i - protected] == requests[i]);
        }
    }
}

/// The repository that a step is about.
pub open spec fn step_address(step: ApplyStepView) -> Option<(Seq<char>, Seq<char>)> {
    match step {
        ApplyStepView::Send(request) => repo_address(request),
        ApplyStepView::FindHead { org, repo } => Some((org, repo)),
        ApplyStepView::BranchAtHead { org, repo, .. } => Some((org, repo)),
    }
}

/// Every step of creating a repository is about the repository that is wanted.
pub proof fn law_new_repo_steps_reach_the_repository(wanted: RepoView)
    ensures
        forall|i: int|
            0 <= i < repo_diff(wanted, None).steps().len() ==> step_address(
                #[trigger] repo_diff(wanted, None).steps()[i],
            ) == Some((wanted.org, wanted.name)),
{
    let create = repo_diff(wanted, None)->Create_0;
    let steps = create.steps();
    let found = 1 + create.permissions.len();
    law_new_repo(wanted);
    law_new_repo_steps(create);
    assert forall|i: int| 0 <= i < steps.len() implies step_address(#[trigger] steps[i]) == Some(
        (wanted.org, wanted.name),
    ) by {
        if i == 0 || i == found {
        } else if i < found {
            let permission = create.permissions[i - 1];
            assert(steps[1 + (i - 1)] == steps[i]);
        } else {
            let k = (i - found - 1) / 2;
            let branch = create.branch_protections[k];
            assert(i == found + 1 + 2 * k || i == found + 2 + 2 * k);
        }
    }
}

proof fn lemma_member_calls_address(
    org: Seq<char>,
    team: Seq<char>,
    diffs: Seq<(Seq<char>, MemberDiff)>,
)
    ensures
        forall|i: int|
            0 <= i < member_requests(org, team, diffs).len() ==> team_address(
                #[trigger] member_requests(org, team, diffs)[i],
            ) == Some((org, team)),
    decreases diffs.len(),
{
    if diffs.len() > 0 {
        let earlier = member_requests(org, team, diffs.drop_last());
        let all = member_requests(org, team, diffs);
        lemma_member_calls_address(org, team, diffs.drop_last());
        assert forall|i: int| 0 <= i < all.len() implies team_address(#[trigger] all[i]) == Some(
            (org, team),
        ) by {
            if i < earlier.len() {
                assert(all[i] == earlier[i]);
            }
        }
    }
}

/// Every call that creates a team is about the team that is wanted; and every call that edits a
/// team is about the team that was found, in the organization in which it is wanted.
pub proof fn law_team_calls_reach_the_team(
    sync: SyncGitHubView,
    wanted: GitHubTeamView,
    actual: Option<ActualTeamView>,
)
    ensures
        forall|i: int|
            0 <= i < team_diff(sync, wanted, actual).requests().len() ==> team_address(
                #[trigger] team_diff(sync, wanted, actual).requests()[i],
            ) == Some(
                (
                    wanted.org,
                    match actual {
                        Some(there) => there.team.name,
                        None => wanted.name,
                    },
                ),
            ),
{
    let requests = team_diff(sync, wanted, actual).requests();
    match actual {
        None => {
            let create = team_diff(sync, wanted, actual)->Create_0;
            law_new_team(sync, wanted);
            law_new_team_calls(create);
            assert forall|i: int| 0 <= i < requests.len() implies team_address(
                #[trigger] requests[i],
            ) == Some((wanted.org, wanted.name)) by {
                if i > 0 {
                    let member = create.members[i - 1];
                    assert(requests[1 + (i - 1)] == requests[i]);
                }
            }
        },
        Some(there) => {
            let edit = team_diff(sync, wanted, actual)->Edit_0;
            law_changed_team(sync, wanted, there);
            law_edit_team_calls(edit);
            lemma_member_calls_address(edit.org, edit.name, edit.member_diffs);
            assert forall|i: int| 0 <= i < requests.len() implies team_address(
                #[trigger] requests[i],
            ) == Some((wanted.org, there.team.name)) by {
                if i > 0 {
                    assert(requests.skip(1)[i - 1] == requests[i]);
                    assert(member_requests(edit.org, edit.name, edit.member_diffs)[i - 1]
                        == requests[i]);
                }
            }
        },
    }
}

} // verus!
