//! Laws about the lines that are told: each tells the values that it is about.
use vstd::prelude::*;

use crate::api::{
    BranchProtectionView, CheckView, RepoPermission, TeamPrivacy, TeamRole, UserRestrictionView,
};
use crate::call::{ReplyView, RequestView};
use crate::diff::{
    BranchProtectionDiffOperationView, BranchProtectionDiffView, CreateRepoDiffView,
    CreateTeamDiffView, DeleteTeamDiffView, DiffView, EditTeamDiffView, MemberDiff,
    RepoCollaboratorView, RepoDiffView, RepoPermissionAssignmentDiffView, RepoPermissionDiff,
    TeamDiffView, UpdateRepoDiffView,
};
use crate::law_text::{law_decimals_differ, law_lists, law_truth_values};
use crate::log::{
    all_protection_lines, call_lines, check_text, checks_text, member_line, permission_text,
    privacy_text, protection_change_lines, protection_diff_lines, protection_lines, repo_lines,
    reply_lines, role_text, team_lines, user_text, users_text, LogLineView,
};
use crate::sync_run::SyncRunView;
use crate::text::{decimal, joined, names_text, quoted};

verus! {

/// Whether a line is for everybody and says a text.
pub open spec fn says(line: LogLineView, text: Seq<char>) -> bool {
    line.level is Info && line.message == text
}

/// Whether a line is for those who look closely and says a text.
pub open spec fn whispers(line: LogLineView, text: Seq<char>) -> bool {
    line.level is Debug && line.message == text
}

/// Whether a text ends in another.
pub open spec fn ends_in(text: Seq<char>, end: Seq<char>) -> bool {
    text.len() >= end.len() && text.skip(text.len() - end.len()) == end
}

/// The words `true` and `false`.
pub open spec fn yes_or_no(value: bool) -> Seq<char> {
    if value {
        "true"@
    } else {
        "false"@
    }
}

/// Every level of access, role and privacy goes by its own name.
pub proof fn law_names(
    permission: RepoPermission,
    other: RepoPermission,
    role: TeamRole,
    privacy: TeamPrivacy,
)
    ensures
        permission is Write ==> permission_text(permission) == "write"@,
        permission is Admin ==> permission_text(permission) == "admin"@,
        permission is Maintain ==> permission_text(permission) == "maintain"@,
        permission is Triage ==> permission_text(permission) == "triage"@,
        permission_text(permission) == permission_text(other) <==> permission == other,
        role is Member <==> role_text(role) == "member"@,
        role is Maintainer <==> role_text(role) == "maintainer"@,
        privacy is Closed <==> privacy_text(privacy) == "closed"@,
        privacy is Secret <==> privacy_text(privacy) == "secret"@,
{
    reveal_strlit("write");
    reveal_strlit("admin");
    reveal_strlit("maintain");
    reveal_strlit("triage");
    reveal_strlit("member");
    reveal_strlit("maintainer");
    reveal_strlit("closed");
    reveal_strlit("secret");
    assert("write"@.len() == 5 && "admin"@.len() == 5 && "maintain"@.len() == 8 && "triage"@.len()
        == 6);
    assert("write"@[0] == 'w' && "admin"@[0] == 'a');
    assert("member"@.len() == 6 && "maintainer"@.len() == 10);
    assert("closed"@[0] == 'c' && "secret"@[0] == 's');
    match permission {
        RepoPermission::Write => {},
        RepoPermission::Admin => {},
        RepoPermission::Maintain => {},
        RepoPermission::Triage => {},
    }
}

/// A list of checks names the contexts of all checks, quoted and in their order; a list of users
/// the names of all users.
pub proof fn law_checks_and_users(checks: Seq<CheckView>, users: Seq<UserRestrictionView>)
    ensures
        checks_text(checks) == "["@ + joined(
            Seq::new(
                checks.len(),
                |i: int| "Check { context: "@ + quoted(checks[i].context) + " }"@,
            ),
            ", "@,
        ) + "]"@,
        users_text(users) == "["@ + joined(
            Seq::new(users.len(), |i: int| "Name("@ + quoted(users[i]->Name_0) + ")"@),
            ", "@,
        ) + "]"@,
{
    let check_items = Seq::new(
        checks.len(),
        |i: int| "Check { context: "@ + quoted(checks[i].context) + " }"@,
    );
    let user_items = Seq::new(users.len(), |i: int| "Name("@ + quoted(users[i]->Name_0) + ")"@);
    assert(checks.map_values(|check: CheckView| check_text(check)) =~= check_items);
    assert(users.map_values(|user: UserRestrictionView| user_text(user))
        =~= user_items);
    law_lists(check_items, Seq::empty());
    law_lists(user_items, Seq::empty());
}

/// A protection is told by six lines: the name of the branch, and under their labels whether stale
/// reviews are dismissed, how many reviews are needed, the checks, and who else may push.
pub proof fn law_protection_lines(name: Seq<char>, protection: BranchProtectionView)
    ensures
        ({
            let lines = protection_lines(name, protection);
            let reviews = protection.required_pull_request_reviews;
            &&& lines.len() == 6
            &&& says(lines[0], "     "@ + name)
            &&& says(
                lines[1],
                "         Dismiss Stale Reviews: "@ + yes_or_no(reviews.dismiss_stale_reviews),
            )
            &&& says(
                lines[2],
                "         Required Approving Review Count: "@ + decimal(
                    reviews.required_approving_review_count as nat,
                ),
            )
            &&& says(
                lines[3],
                "         Checks: "@ + checks_text(protection.required_status_checks.checks),
            )
            &&& says(
                lines[4],
                "         User Overrides: "@ + users_text(protection.restrictions.users),
            )
            &&& says(
                lines[5],
                "         Team Overrides: "@ + names_text(protection.restrictions.teams),
            )
        }),
{
}

proof fn lemma_same_label(label: Seq<char>, a: Seq<char>, b: Seq<char>)
    requires
        label + a == label + b,
    ensures
        a == b,
{
    assert((label + a).skip(label.len() as int) =~= a);
    assert((label + b).skip(label.len() as int) =~= b);
}

/// The second of the lines that tell a protection ends in `true` if and only if stale reviews are
/// dismissed, and in `false` otherwise.
pub proof fn law_protection_lines_end(name: Seq<char>, protection: BranchProtectionView)
    ensures
        ({
            let line = protection_lines(name, protection)[1].message;
            let dismissed = protection.required_pull_request_reviews.dismiss_stale_reviews;
            &&& dismissed <==> ends_in(line, "true"@)
            &&& !dismissed <==> ends_in(line, "false"@)
        }),
{
    let label = "         Dismiss Stale Reviews: "@;
    let line = protection_lines(name, protection)[1].message;
    let dismissed = protection.required_pull_request_reviews.dismiss_stale_reviews;
    reveal_strlit("true");
    reveal_strlit("false");
    reveal_strlit("         Dismiss Stale Reviews: ");
    law_protection_lines(name, protection);
    assert("true"@.len() == 4 && "false"@.len() == 5);
    assert("true"@[0] == 't' && "false"@[0] == 'f' && "false"@[1] == 'a');
    assert(label.len() == 32 && label[31] == ' ');
    if dismissed {
        assert(line.skip(line.len() - 4) =~= "true"@);
        assert(line.skip(line.len() - 5)[0] == ' ');
    } else {
        assert(line.skip(line.len() - 5) =~= "false"@);
        assert(line.skip(line.len() - 4)[0] == 'a');
    }
}

/// Protections that differ in whether stale reviews are dismissed, or in how many reviews are
/// needed, are told by different lines; so are branches with different names.
pub proof fn law_protection_lines_differ(
    name: Seq<char>,
    protection: BranchProtectionView,
    other_name: Seq<char>,
    other: BranchProtectionView,
)
    ensures
        ({
            let lines = protection_lines(name, protection);
            let other_lines = protection_lines(other_name, other);
            let reviews = protection.required_pull_request_reviews;
            let other_reviews = other.required_pull_request_reviews;
            &&& lines[0] == other_lines[0] <==> name == other_name
            &&& lines[1] == other_lines[1] <==> reviews.dismiss_stale_reviews
                == other_reviews.dismiss_stale_reviews
            &&& lines[2] == other_lines[2] <==> reviews.required_approving_review_count
                == other_reviews.required_approving_review_count
        }),
{
    let reviews = protection.required_pull_request_reviews;
    let other_reviews = other.required_pull_request_reviews;
    let count = reviews.required_approving_review_count as nat;
    let other_count = other_reviews.required_approving_review_count as nat;
    let lines = protection_lines(name, protection);
    let other_lines = protection_lines(other_name, other);
    law_protection_lines(name, protection);
    law_protection_lines(other_name, other);
    law_truth_values(reviews.dismiss_stale_reviews);
    law_truth_values(other_reviews.dismiss_stale_reviews);
    law_decimals_differ(count, other_count);
    if lines[0] == other_lines[0] {
        lemma_same_label("     "@, name, other_name);
    }
    if lines[1] == other_lines[1] {
        lemma_same_label(
            "         Dismiss Stale Reviews: "@,
            yes_or_no(reviews.dismiss_stale_reviews),
            yes_or_no(other_reviews.dismiss_stale_reviews),
        );
    }
    if lines[2] == other_lines[2] {
        lemma_same_label(
            "         Required Approving Review Count: "@,
            decimal(count),
            decimal(other_count),
        );
    }
}

/// One if something changes, none if not.
pub open spec fn told(changes: bool) -> int {
    if changes {
        1
    } else {
        0
    }
}

/// Of two protections exactly those of the five told values are told that differ, each by one line
/// with the old value and the new one.
pub proof fn law_protection_change_lines(before: BranchProtectionView, after: BranchProtectionView)
    ensures
        ({
            let lines = protection_change_lines(before, after);
            let old_reviews = before.required_pull_request_reviews;
            let new_reviews = after.required_pull_request_reviews;
            let old_count = old_reviews.required_approving_review_count;
            let new_count = new_reviews.required_approving_review_count;
            let old_checks = before.required_status_checks.checks;
            let new_checks = after.required_status_checks.checks;
            let old_limits = before.restrictions;
            let new_limits = after.restrictions;
            let reviews = told(
                old_reviews.dismiss_stale_reviews != new_reviews.dismiss_stale_reviews,
            );
            let count = told(old_count != new_count);
            let checks = told(old_checks != new_checks);
            let users = told(old_limits.users != new_limits.users);
            let teams = told(old_limits.teams != new_limits.teams);
            &&& lines.len() == reviews + count + checks + users + teams
            &&& reviews == 1 ==> says(
                lines[0],
                "        Dismiss Stale Reviews: "@ + yes_or_no(old_reviews.dismiss_stale_reviews)
                    + " => "@ + yes_or_no(new_reviews.dismiss_stale_reviews),
            )
            &&& count == 1 ==> says(
                lines[reviews],
                "        Required Approving Review Count: "@ + decimal(old_count as nat) + " => "@
                    + decimal(new_count as nat),
            )
            &&& checks == 1 ==> says(
                lines[reviews + count],
                "        Checks: "@ + checks_text(old_checks) + " => "@ + checks_text(new_checks),
            )
            &&& users == 1 ==> says(
                lines[reviews + count + checks],
                "        User Overrides: "@ + users_text(old_limits.users) + " => "@ + users_text(
                    new_limits.users,
                ),
            )
            &&& teams == 1 ==> says(
                lines[reviews + count + checks + users],
                "        Team Overrides: "@ + names_text(old_limits.teams) + " => "@ + names_text(
                    new_limits.teams,
                ),
            )
        }),
{
}

/// The change of a protection is told by what is done: the creation of the branch and its
/// protection, the protection, the name of the branch and what changes, or the removal.
pub proof fn law_protection_diff_lines(diff: BranchProtectionDiffView)
    ensures
        diff.operation matches BranchProtectionDiffOperationView::CreateWithBranch(protection, _)
            ==> {
            &&& diff.lines().len() == 7
            &&& says(diff.lines()[0], "      Creating branch "@ + diff.name)
            &&& diff.lines().skip(1) == protection_lines(diff.name, protection)
        },
        diff.operation matches BranchProtectionDiffOperationView::Create(protection)
            ==> diff.lines() == protection_lines(diff.name, protection),
        diff.operation matches BranchProtectionDiffOperationView::Update(before, after) ==> {
            &&& diff.lines().len() > 0
            &&& says(diff.lines()[0], "      "@ + diff.name + " protection:"@)
            &&& diff.lines().skip(1) == protection_change_lines(before, after)
        },
        diff.operation is Delete ==> {
            &&& diff.lines().len() == 1
            &&& says(
                diff.lines()[0],
                "Deleting branch protection for branch '"@ + diff.name + "'"@,
            )
        },
{
    match diff.operation {
        BranchProtectionDiffOperationView::CreateWithBranch(protection, _) => {
            assert(diff.lines().skip(1) =~= protection_lines(diff.name, protection));
        },
        BranchProtectionDiffOperationView::Update(before, after) => {
            assert(diff.lines().skip(1) =~= protection_change_lines(before, after));
        },
        _ => {},
    }
}

/// The change of an access is told with who it is about and with the levels that it is about.
pub proof fn law_permission_line(diff: RepoPermissionAssignmentDiffView)
    ensures
        ({
            let who = match diff.collaborator {
                RepoCollaboratorView::Team(name) => "team '"@ + name + "'"@,
                RepoCollaboratorView::User(name) => "user '"@ + name + "'"@,
            };
            match diff.diff {
                RepoPermissionDiff::Create(permission) => says(
                    diff.line(),
                    "Giving "@ + who + " "@ + permission_text(permission) + " permission"@,
                ),
                RepoPermissionDiff::Update(old_permission, permission) => says(
                    diff.line(),
                    "Changing "@ + who + "'s permission from "@ + permission_text(old_permission)
                        + " to "@ + permission_text(permission),
                ),
                RepoPermissionDiff::Delete(permission) => says(
                    diff.line(),
                    "Removing "@ + who + "'s "@ + permission_text(permission) + " permission "@,
                ),
            }
        }),
{
}

/// The lines for some protections are those for the first of them, followed by those for the
/// others; and for one protection, those that tell it.
pub proof fn law_lines_of_protections(
    a: Seq<(Seq<char>, BranchProtectionView)>,
    b: Seq<(Seq<char>, BranchProtectionView)>,
    name: Seq<char>,
    protection: BranchProtectionView,
)
    ensures
        all_protection_lines(a + b) == all_protection_lines(a) + all_protection_lines(b),
        all_protection_lines(seq![(name, protection)]) == protection_lines(name, protection),
    decreases b.len(),
{
    if b.len() == 0 {
        assert(a + b =~= a);
        assert(all_protection_lines(a) + Seq::empty() =~= all_protection_lines(a));
    } else {
        assert((a + b).drop_last() =~= a + b.drop_last());
        law_lines_of_protections(a, b.drop_last(), name, protection);
        assert(all_protection_lines(a + b) =~= all_protection_lines(a) + all_protection_lines(b));
    }
    assert(seq![(name, protection)].drop_last() =~= Seq::empty());
    reveal_with_fuel(all_protection_lines, 2);
    assert(Seq::empty() + protection_lines(name, protection) =~= protection_lines(
        name,
        protection,
    ));
}

/// The lines for some changed protections are those for the first of them, followed by those for
/// the others; and for one, those that tell it.
pub proof fn law_lines_of_protection_diffs(
    a: Seq<BranchProtectionDiffView>,
    b: Seq<BranchProtectionDiffView>,
    diff: BranchProtectionDiffView,
)
    ensures
        protection_diff_lines(a + b) == protection_diff_lines(a) + protection_diff_lines(b),
        protection_diff_lines(seq![diff]) == diff.lines(),
    decreases b.len(),
{
    if b.len() == 0 {
        assert(a + b =~= a);
        assert(protection_diff_lines(a) + Seq::empty() =~= protection_diff_lines(a));
    } else {
        assert((a + b).drop_last() =~= a + b.drop_last());
        law_lines_of_protection_diffs(a, b.drop_last(), diff);
        assert(protection_diff_lines(a + b) =~= protection_diff_lines(a) + protection_diff_lines(
            b,
        ));
    }
    assert(seq![diff].drop_last() =~= Seq::empty());
    reveal_with_fuel(protection_diff_lines, 2);
    assert(Seq::empty() + diff.lines() =~= diff.lines());
}

/// A new repository is told with its organization, its name and its description, then each access
/// that is given, and then the protections of its branches.
pub proof fn law_new_repo_lines(create: CreateRepoDiffView)
    ensures
        ({
            let lines = create.lines();
            let n = create.permissions.len();
            &&& lines.len() >= 6 + n
            &&& says(lines[0], "➕ Creating repo:"@)
            &&& says(lines[1], "  Org: "@ + create.org)
            &&& says(lines[2], "  Name: "@ + create.name)
            &&& says(lines[3], "  Description: "@ + create.description)
            &&& says(lines[4], "  Permissions:"@)
            &&& forall|i: int|
                0 <= i < n ==> lines[5 + i] == (RepoPermissionAssignmentDiffView {
                    collaborator: (#[trigger] create.permissions[i]).0,
                    diff: RepoPermissionDiff::Create(create.permissions[i].1),
                }).line()
            &&& says(lines[5 + n as int], "  Branch Protections:"@)
            &&& lines.skip(6 + n as int) == all_protection_lines(create.branch_protections)
            &&& RepoDiffView::Create(create).lines() == lines
        }),
{
    assert(create.lines().skip(6 + create.permissions.len() as int) =~= all_protection_lines(
        create.branch_protections,
    ));
}

/// The update of a repository that changes nothing is not told. Another is told with the
/// organization and the name of the repository, then the new name, the description, each change
/// of the access and each change of a protection, as far as there are any.
pub proof fn law_update_lines(update: UpdateRepoDiffView)
    ensures
        ({
            let lines = update.lines();
            let n = update.permission_diffs.len();
            let renamed = told(update.name_diff is Some);
            let described = told(update.description_diff is Some);
            let heading = told(n > 0);
            let silent = renamed == 0 && described == 0 && n == 0
                && update.branch_protection_diffs.len() == 0;
            let first = 1 + renamed + described + heading;
            &&& lines.len() == 0 <==> silent
            &&& !silent ==> {
                &&& lines.len() >= first + n
                &&& says(
                    lines[0],
                    "📝 Editing repo '"@ + update.org + "/"@ + update.name + "':"@,
                )
                &&& update.name_diff matches Some(name) ==> says(
                    lines[1],
                    "  Changing name to: "@ + name,
                )
                &&& update.description_diff matches Some((Some(old_description), description))
                    ==> says(
                    lines[1 + renamed],
                    "  New description: '"@ + old_description + "' => '"@ + description + "'"@,
                )
                &&& update.description_diff matches Some((None, description)) ==> says(
                    lines[1 + renamed],
                    "  Set description: '"@ + description + "'"@,
                )
                &&& n > 0 ==> says(lines[1 + renamed + described], "  Permission Changes:"@)
                &&& forall|i: int|
                    0 <= i < n ==> lines[first + i] == (
                    #[trigger] update.permission_diffs[i]).line()
                &&& lines.skip(first + n) == protection_diff_lines(update.branch_protection_diffs)
            }
            &&& RepoDiffView::Update(update).lines() == lines
        }),
{
    let n = update.permission_diffs.len();
    let first = 1 + told(update.name_diff is Some) + told(update.description_diff is Some) + told(
        n > 0,
    );
    if !update.is_noop() {
        assert(update.lines().skip(first + n) =~= protection_diff_lines(
            update.branch_protection_diffs,
        ));
    }
}

/// A new team is told with its organization, its name, its description and its privacy, and then
/// each member with its role.
pub proof fn law_new_team_lines(create: CreateTeamDiffView)
    ensures
        ({
            let lines = create.lines();
            &&& lines.len() == 6 + create.members.len()
            &&& says(lines[0], "➕ Creating team:"@)
            &&& says(lines[1], "  Org: "@ + create.org)
            &&& says(lines[2], "  Name: "@ + create.name)
            &&& says(lines[3], "  Description: "@ + create.description)
            &&& says(lines[4], "  Privacy: "@ + privacy_text(create.privacy))
            &&& says(lines[5], "  Members:"@)
            &&& forall|i: int|
                0 <= i < create.members.len() ==> says(
                    lines[6 + i],
                    "    "@ + (#[trigger] create.members[i]).0 + ": "@ + role_text(
                        create.members[i].1,
                    ),
                )
            &&& TeamDiffView::Create(create).lines() == lines
        }),
{
}

/// The change of a member is told with its name and with the roles that it is about; that a member
/// stays the same is told to nobody but those who look closely.
pub proof fn law_member_line(member: Seq<char>, diff: MemberDiff)
    ensures
        match diff {
            MemberDiff::Create(role) => says(
                member_line(member, diff),
                "  Adding member '"@ + member + "' with "@ + role_text(role) + " role"@,
            ),
            MemberDiff::ChangeRole((old_role, role)) => says(
                member_line(member, diff),
                "  Changing '"@ + member + "' role from "@ + role_text(old_role) + " to "@
                    + role_text(role),
            ),
            MemberDiff::Delete => says(
                member_line(member, diff),
                "  Deleting member '"@ + member + "'"@,
            ),
            MemberDiff::Noop => whispers(
                member_line(member, diff),
                "  Member '"@ + member + "' stays the same"@,
            ),
        },
{
}

/// The edit of a team that changes nothing is not told. Another is told with the name of the team,
/// then the new name, the description and the privacy, as far as they change, and then each
/// member.
pub proof fn law_edit_team_lines(edit: EditTeamDiffView)
    ensures
        ({
            let lines = edit.lines();
            let renamed = told(edit.name_diff is Some);
            let described = told(edit.description_diff is Some);
            let disclosed = told(edit.privacy_diff is Some);
            let first = 1 + renamed + described + disclosed;
            let silent = first == 1 && forall|i: int|
                0 <= i < edit.member_diffs.len() ==> (#[trigger] edit.member_diffs[i]).1 is Noop;
            &&& lines.len() == 0 <==> silent
            &&& !silent ==> {
                &&& lines.len() == first + edit.member_diffs.len()
                &&& says(lines[0], "📝 Editing team '"@ + edit.name + "':"@)
                &&& edit.name_diff matches Some(name) ==> says(lines[1], "  New name: "@ + name)
                &&& edit.description_diff matches Some((old_description, description)) ==> says(
                    lines[1 + renamed],
                    "  New description: '"@ + old_description + "' => '"@ + description + "'"@,
                )
                &&& edit.privacy_diff matches Some((old_privacy, privacy)) ==> says(
                    lines[1 + renamed + described],
                    "  New privacy: '"@ + privacy_text(old_privacy) + "' => '"@ + privacy_text(
                        privacy,
                    ) + "'"@,
                )
                &&& forall|i: int|
                    0 <= i < edit.member_diffs.len() ==> lines[first + i] == member_line(
                        (#[trigger] edit.member_diffs[i]).0,
                        edit.member_diffs[i].1,
                    )
            }
            &&& TeamDiffView::Edit(edit).lines() == lines
        }),
{
}

/// A team that is deleted is told with its organization and its name.
pub proof fn law_delete_team_lines(delete: DeleteTeamDiffView)
    ensures
        delete.lines().len() == 3,
        says(delete.lines()[0], "❌ Deleting team:"@),
        says(delete.lines()[1], "  Org: "@ + delete.org),
        says(delete.lines()[2], "  Name: "@ + delete.name),
        TeamDiffView::Delete(delete).lines() == delete.lines(),
{
}

/// The lines for some teams are those for the first of them, followed by those for the others; and
/// for one team, those that tell it.
pub proof fn law_lines_of_teams(a: Seq<TeamDiffView>, b: Seq<TeamDiffView>, diff: TeamDiffView)
    ensures
        team_lines(a + b) == team_lines(a) + team_lines(b),
        team_lines(seq![diff]) == diff.lines(),
    decreases b.len(),
{
    if b.len() == 0 {
        assert(a + b =~= a);
        assert(team_lines(a) + Seq::empty() =~= team_lines(a));
    } else {
        assert((a + b).drop_last() =~= a + b.drop_last());
        law_lines_of_teams(a, b.drop_last(), diff);
        assert(team_lines(a + b) =~= team_lines(a) + team_lines(b));
    }
    assert(seq![diff].drop_last() =~= Seq::empty());
    reveal_with_fuel(team_lines, 2);
    assert(Seq::empty() + diff.lines() =~= diff.lines());
}

/// The lines for some repositories are those for the first of them, followed by those for the
/// others; and for one repository, those that tell it.
pub proof fn law_lines_of_repos(a: Seq<RepoDiffView>, b: Seq<RepoDiffView>, diff: RepoDiffView)
    ensures
        repo_lines(a + b) == repo_lines(a) + repo_lines(b),
        repo_lines(seq![diff]) == diff.lines(),
    decreases b.len(),
{
    if b.len() == 0 {
        assert(a + b =~= a);
        assert(repo_lines(a) + Seq::empty() =~= repo_lines(a));
    } else {
        assert((a + b).drop_last() =~= a + b.drop_last());
        law_lines_of_repos(a, b.drop_last(), diff);
        assert(repo_lines(a + b) =~= repo_lines(a) + repo_lines(b));
    }
    assert(seq![diff].drop_last() =~= Seq::empty());
    reveal_with_fuel(repo_lines, 2);
    assert(Seq::empty() + diff.lines() =~= diff.lines());
}

/// A diff is told by a heading and the lines of its teams, if it is about any, and then by a
/// heading and the lines of its repositories, if it is about any.
pub proof fn law_diff_lines(diff: DiffView)
    ensures
        ({
            let lines = diff.lines();
            let teams = told(diff.team_diffs.len() > 0);
            let repos = told(diff.repo_diffs.len() > 0);
            let between = teams + team_lines(diff.team_diffs).len();
            &&& lines.len() == between + repos + repo_lines(diff.repo_diffs).len()
            &&& teams == 1 ==> says(lines[0], "💻 Team Diffs:"@)
            &&& lines.subrange(teams, between) == team_lines(diff.team_diffs)
            &&& repos == 1 ==> says(lines[between], "💻 Repo Diffs:"@)
            &&& lines.skip(between + repos) == repo_lines(diff.repo_diffs)
        }),
{
    let lines = diff.lines();
    let teams = told(diff.team_diffs.len() > 0);
    let repos = told(diff.repo_diffs.len() > 0);
    let between = teams + team_lines(diff.team_diffs).len();
    assert(lines.subrange(teams, between) =~= team_lines(diff.team_diffs));
    assert(lines.skip(between + repos) =~= repo_lines(diff.repo_diffs));
}

/// A call is announced if and only if it removes a protection, and its outcome is told if and only
/// if a protection was to be set on a branch that is not there; both with the branch and the
/// repository, for those who look closely.
pub proof fn law_call_lines(request: RequestView, reply: ReplyView)
    ensures
        request matches RequestView::DeleteBranchProtection { org, repo, branch } ==> {
            &&& call_lines(request).len() == 1
            &&& whispers(
                call_lines(request)[0],
                "Deleting branch protection for '"@ + branch + "' on '"@ + org + "/"@ + repo
                    + "' as the protection is not in the team repo"@,
            )
        },
        !(request is DeleteBranchProtection) ==> call_lines(request).len() == 0,
        request matches RequestView::UpdateBranchProtection { org, repo, branch, .. } ==> reply
            == ReplyView::ProtectionUpdated(false) ==> {
            &&& reply_lines(request, reply).len() == 1
            &&& whispers(
                reply_lines(request, reply)[0],
                "Did not update branch protection for '"@ + branch + "' on '"@ + org + "/"@ + repo
                    + "' as the branch does not exist."@,
            )
        },
        !(request is UpdateBranchProtection && reply == ReplyView::ProtectionUpdated(false))
            ==> reply_lines(request, reply).len() == 0,
{
}

/// A synchronization announces each repository before it is looked for, and tells whether it was
/// found and whether its description is the wanted one; of its other calls it tells what is told of
/// calls. When it has ended it tells nothing.
pub proof fn law_synchronization_lines(run: SyncRunView, reply: ReplyView)
    ensures
        run.pending() is None ==> run.call_lines().len() == 0 && run.reply_lines(reply).len() == 0,
        run.stage is Repo ==> {
            &&& run.call_lines().len() == 1
            &&& whispers(
                run.call_lines()[0],
                "synchronizing repo "@ + run.sync.repos[run.done].org + "/"@
                    + run.sync.repos[run.done].name,
            )
        },
        !(run.stage is Repo) && run.pending() is Some ==> run.call_lines() == call_lines(
            run.pending()->0,
        ),
        run.stage is Repo && !(reply is Repo && reply->Repo_0 is Some) ==> run.reply_lines(
            reply,
        ).len() == 0,
        run.stage is Repo ==> (reply matches ReplyView::Repo(Some(repo)) ==> {
            let synced = repo.description == Some(run.sync.repos[run.done].description);
            &&& run.reply_lines(reply).len() == 1 + told(synced)
            &&& whispers(run.reply_lines(reply)[0], "repo already exists..."@)
            &&& synced ==> whispers(run.reply_lines(reply)[1], "repo is in synced state"@)
        }),
        !(run.stage is Repo) && run.pending() is Some ==> run.reply_lines(reply) == reply_lines(
            run.pending()->0,
            reply,
        ),
{
}

} // verus!
