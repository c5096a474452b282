//! Telling what a diff would change, and what is done.
use vstd::prelude::*;

use crate::api::{
    same_checks, same_users, BranchProtection, BranchProtectionView, Check, CheckView,
    RepoPermission, TeamPrivacy, TeamRole, UserRestriction, UserRestrictionView,
};
use crate::call::{Reply, ReplyView, Request, RequestView};
use crate::diff::{
    BranchProtectionDiff, BranchProtectionDiffOperation, BranchProtectionDiffOperationView,
    BranchProtectionDiffView, CreateRepoDiff, CreateRepoDiffView, CreateTeamDiff,
    CreateTeamDiffView, DeleteTeamDiff, DeleteTeamDiffView, Diff, DiffView, EditTeamDiff,
    EditTeamDiffView, MemberDiff, RepoCollaborator, RepoCollaboratorView, RepoDiff, RepoDiffView,
    RepoPermissionAssignmentDiff, RepoPermissionAssignmentDiffView, RepoPermissionDiff, TeamDiff,
    TeamDiffView, UpdateRepoDiff, UpdateRepoDiffView,
};
use crate::lists::same_names;
use crate::text::{
    bool_text, cat2, cat3, cat4, cat5, cat6, decimal, list_text, names_text, quoted, write_bool,
    write_decimal, write_list, write_names, write_quoted,
};

verus! {

/// How much attention a line asks for.
#[derive(Clone, Copy, PartialEq, Eq, Structural, Debug)]
pub enum Level {
    Info,
    Debug,
}

/// A line of the log.
#[derive(PartialEq, Debug)]
pub struct LogLine {
    pub level: Level,
    pub message: String,
}

pub struct LogLineView {
    pub level: Level,
    pub message: Seq<char>,
}

impl DeepView for LogLine {
    type V = LogLineView;

    open spec fn deep_view(&self) -> LogLineView {
        LogLineView { level: self.level, message: self.message@ }
    }
}

/// A line that everybody is to see.
pub open spec fn info(message: Seq<char>) -> LogLineView {
    LogLineView { level: Level::Info, message }
}

/// A line for those who look closely.
pub open spec fn debug(message: Seq<char>) -> LogLineView {
    LogLineView { level: Level::Debug, message }
}

/// The name of a level of access.
pub open spec fn permission_text(permission: RepoPermission) -> Seq<char> {
    match permission {
        RepoPermission::Write => "write"@,
        RepoPermission::Admin => "admin"@,
        RepoPermission::Maintain => "maintain"@,
        RepoPermission::Triage => "triage"@,
    }
}

/// The name of a role.
pub open spec fn role_text(role: TeamRole) -> Seq<char> {
    match role {
        TeamRole::Member => "member"@,
        TeamRole::Maintainer => "maintainer"@,
    }
}

/// The name of a privacy.
pub open spec fn privacy_text(privacy: TeamPrivacy) -> Seq<char> {
    match privacy {
        TeamPrivacy::Secret => "secret"@,
        TeamPrivacy::Closed => "closed"@,
    }
}

/// A check as `{:?}` writes it.
pub open spec fn check_text(check: CheckView) -> Seq<char> {
    "Check { context: "@ + quoted(check.context) + " }"@
}

/// A list of checks as `{:?}` writes it.
pub open spec fn checks_text(checks: Seq<CheckView>) -> Seq<char> {
    list_text(checks.map_values(|check: CheckView| check_text(check)))
}

/// A user as `{:?}` writes it.
pub open spec fn user_text(user: UserRestrictionView) -> Seq<char> {
    match user {
        UserRestrictionView::Name(name) => "Name("@ + quoted(name) + ")"@,
    }
}

/// A list of users as `{:?}` writes it.
pub open spec fn users_text(users: Seq<UserRestrictionView>) -> Seq<char> {
    list_text(users.map_values(|user: UserRestrictionView| user_text(user)))
}

/// The lines that tell the protection of a branch.
pub open spec fn protection_lines(
    branch_name: Seq<char>,
    protection: BranchProtectionView,
) -> Seq<LogLineView> {
    let reviews = protection.required_pull_request_reviews;
    seq![
        info("     "@ + branch_name),
        info("         Dismiss Stale Reviews: "@ + bool_text(reviews.dismiss_stale_reviews)),
        info(
            "         Required Approving Review Count: "@ + decimal(
                reviews.required_approving_review_count as nat,
            ),
        ),
        info("         Checks: "@ + checks_text(protection.required_status_checks.checks)),
        info("         User Overrides: "@ + users_text(protection.restrictions.users)),
        info("         Team Overrides: "@ + names_text(protection.restrictions.teams)),
    ]
}

/// A line that tells a change, unless the two texts stand for the same value.
pub open spec fn change_line(
    same: bool,
    label: Seq<char>,
    old_text: Seq<char>,
    new_text: Seq<char>,
) -> Seq<LogLineView> {
    if same {
        Seq::empty()
    } else {
        seq![info(label + old_text + " => "@ + new_text)]
    }
}

/// The lines that tell what changes between two protections.
pub open spec fn protection_change_lines(
    before: BranchProtectionView,
    after: BranchProtectionView,
) -> Seq<LogLineView> {
    let old_reviews = before.required_pull_request_reviews;
    let new_reviews = after.required_pull_request_reviews;
    change_line(
        old_reviews.dismiss_stale_reviews == new_reviews.dismiss_stale_reviews,
        "        Dismiss Stale Reviews: "@,
        bool_text(old_reviews.dismiss_stale_reviews),
        bool_text(new_reviews.dismiss_stale_reviews),
    ) + change_line(
        old_reviews.required_approving_review_count == new_reviews.required_approving_review_count,
        "        Required Approving Review Count: "@,
        decimal(old_reviews.required_approving_review_count as nat),
        decimal(new_reviews.required_approving_review_count as nat),
    ) + change_line(
        before.required_status_checks.checks == after.required_status_checks.checks,
        "        Checks: "@,
        checks_text(before.required_status_checks.checks),
        checks_text(after.required_status_checks.checks),
    ) + change_line(
        before.restrictions.users == after.restrictions.users,
        "        User Overrides: "@,
        users_text(before.restrictions.users),
        users_text(after.restrictions.users),
    ) + change_line(
        before.restrictions.teams == after.restrictions.teams,
        "        Team Overrides: "@,
        names_text(before.restrictions.teams),
        names_text(after.restrictions.teams),
    )
}

impl BranchProtectionDiffView {
    /// The lines that tell the change of a protection.
    pub open spec fn lines(self) -> Seq<LogLineView> {
        match self.operation {
            BranchProtectionDiffOperationView::CreateWithBranch(protection, _) => seq![
                info("      Creating branch "@ + self.name),
            ] + protection_lines(self.name, protection),
            BranchProtectionDiffOperationView::Create(protection) => protection_lines(
                self.name,
                protection,
            ),
            BranchProtectionDiffOperationView::Update(before, after) => seq![
                info("      "@ + self.name + " protection:"@),
            ] + protection_change_lines(before, after),
            BranchProtectionDiffOperationView::Delete => seq![
                info("Deleting branch protection for branch '"@ + self.name + "'"@),
            ],
        }
    }
}

/// How a collaborator is called.
pub open spec fn collaborator_text(collaborator: RepoCollaboratorView) -> Seq<char> {
    match collaborator {
        RepoCollaboratorView::Team(name) => "team '"@ + name + "'"@,
        RepoCollaboratorView::User(name) => "user '"@ + name + "'"@,
    }
}

impl RepoPermissionAssignmentDiffView {
    /// The line that tells the change of an access.
    pub open spec fn line(self) -> LogLineView {
        let name = collaborator_text(self.collaborator);
        match self.diff {
            RepoPermissionDiff::Create(permission) => info(
                "Giving "@ + name + " "@ + permission_text(permission) + " permission"@,
            ),
            RepoPermissionDiff::Update(before, after) => info(
                "Changing "@ + name + "'s permission from "@ + permission_text(before) + " to "@
                    + permission_text(after),
            ),
            RepoPermissionDiff::Delete(permission) => info(
                "Removing "@ + name + "'s "@ + permission_text(permission) + " permission "@,
            ),
        }
    }
}

/// The lines that tell the protections of the branches of a new repository.
pub open spec fn all_protection_lines(
    protections: Seq<(Seq<char>, BranchProtectionView)>,
) -> Seq<LogLineView>
    decreases protections.len(),
{
    if protections.len() == 0 {
        Seq::empty()
    } else {
        all_protection_lines(protections.drop_last()) + protection_lines(
            protections.last().0,
            protections.last().1,
        )
    }
}

impl CreateRepoDiffView {
    /// The lines that tell of a new repository.
    pub open spec fn lines(self) -> Seq<LogLineView> {
        seq![
            info("➕ Creating repo:"@),
            info("  Org: "@ + self.org),
            info("  Name: "@ + self.name),
            info("  Description: "@ + self.description),
            info("  Permissions:"@),
        ] + self.permissions.map_values(
            |permission: (RepoCollaboratorView, RepoPermission)|
                (RepoPermissionAssignmentDiffView {
                    collaborator: permission.0,
                    diff: RepoPermissionDiff::Create(permission.1),
                }).line(),
        ) + seq![info("  Branch Protections:"@)] + all_protection_lines(self.branch_protections)
    }
}

/// The lines that tell the changes of some protections.
pub open spec fn protection_diff_lines(diffs: Seq<BranchProtectionDiffView>) -> Seq<LogLineView>
    decreases diffs.len(),
{
    if diffs.len() == 0 {
        Seq::empty()
    } else {
        protection_diff_lines(diffs.drop_last()) + diffs.last().lines()
    }
}

impl UpdateRepoDiffView {
    /// Whether nothing is to be changed.
    pub open spec fn is_noop(self) -> bool {
        &&& self.name_diff is None
        &&& self.description_diff is None
        &&& self.permission_diffs.len() == 0
        &&& self.branch_protection_diffs.len() == 0
    }

    /// The lines that tell what is changed in a repository; none if nothing is.
    pub open spec fn lines(self) -> Seq<LogLineView> {
        if self.is_noop() {
            Seq::empty()
        } else {
            let name = match self.name_diff {
                Some(name) => seq![info("  Changing name to: "@ + name)],
                None => Seq::empty(),
            };
            let description = match self.description_diff {
                Some((Some(before), after)) => seq![
                    info("  New description: '"@ + before + "' => '"@ + after + "'"@),
                ],
                Some((None, after)) => seq![info("  Set description: '"@ + after + "'"@)],
                None => Seq::empty(),
            };
            let heading = if self.permission_diffs.len() > 0 {
                seq![info("  Permission Changes:"@)]
            } else {
                Seq::empty()
            };
            seq![info("📝 Editing repo '"@ + self.org + "/"@ + self.name + "':"@)] + name
                + description + heading + self.permission_diffs.map_values(
                |diff: RepoPermissionAssignmentDiffView| diff.line(),
            ) + protection_diff_lines(self.branch_protection_diffs)
        }
    }
}

impl RepoDiffView {
    /// The lines that tell the change of a repository.
    pub open spec fn lines(self) -> Seq<LogLineView> {
        match self {
            RepoDiffView::Create(create) => create.lines(),
            RepoDiffView::Update(update) => update.lines(),
        }
    }
}

impl CreateTeamDiffView {
    /// The lines that tell of a new team.
    pub open spec fn lines(self) -> Seq<LogLineView> {
        seq![
            info("➕ Creating team:"@),
            info("  Org: "@ + self.org),
            info("  Name: "@ + self.name),
            info("  Description: "@ + self.description),
            info("  Privacy: "@ + privacy_text(self.privacy)),
            info("  Members:"@),
        ] + self.members.map_values(
            |member: (Seq<char>, TeamRole)|
                info("    "@ + member.0 + ": "@ + role_text(member.1)),
        )
    }
}

/// The line that tells what happens to one member.
pub open spec fn member_line(member: Seq<char>, diff: MemberDiff) -> LogLineView {
    match diff {
        MemberDiff::Create(role) => info(
            "  Adding member '"@ + member + "' with "@ + role_text(role) + " role"@,
        ),
        MemberDiff::ChangeRole((before, after)) => info(
            "  Changing '"@ + member + "' role from "@ + role_text(before) + " to "@ + role_text(
                after,
            ),
        ),
        MemberDiff::Delete => info("  Deleting member '"@ + member + "'"@),
        MemberDiff::Noop => debug("  Member '"@ + member + "' stays the same"@),
    }
}

impl EditTeamDiffView {
    /// Whether nothing is to be changed.
    pub open spec fn is_noop(self) -> bool {
        &&& self.name_diff is None
        &&& self.description_diff is None
        &&& self.privacy_diff is None
        &&& forall|i: int|
            0 <= i < self.member_diffs.len() ==> (#[trigger] self.member_diffs[i]).1 is Noop
    }

    /// The lines that tell what is changed in a team; none if nothing is.
    pub open spec fn lines(self) -> Seq<LogLineView> {
        if self.is_noop() {
            Seq::empty()
        } else {
            let name = match self.name_diff {
                Some(name) => seq![info("  New name: "@ + name)],
                None => Seq::empty(),
            };
            let description = match self.description_diff {
                Some((before, after)) => seq![
                    info("  New description: '"@ + before + "' => '"@ + after + "'"@),
                ],
                None => Seq::empty(),
            };
            let privacy = match self.privacy_diff {
                Some((before, after)) => seq![
                    info(
                        "  New privacy: '"@ + privacy_text(before) + "' => '"@ + privacy_text(after)
                            + "'"@,
                    ),
                ],
                None => Seq::empty(),
            };
            seq![info("📝 Editing team '"@ + self.name + "':"@)] + name + description + privacy
                + self.member_diffs.map_values(
                |entry: (Seq<char>, MemberDiff)| member_line(entry.0, entry.1),
            )
        }
    }
}

impl DeleteTeamDiffView {
    /// The lines that tell of a team that is deleted.
    pub open spec fn lines(self) -> Seq<LogLineView> {
        seq![
            info("❌ Deleting team:"@),
            info("  Org: "@ + self.org),
            info("  Name: "@ + self.name),
        ]
    }
}

impl TeamDiffView {
    /// The lines that tell the change of a team.
    pub open spec fn lines(self) -> Seq<LogLineView> {
        match self {
            TeamDiffView::Create(create) => create.lines(),
            TeamDiffView::Edit(edit) => edit.lines(),
            TeamDiffView::Delete(delete) => delete.lines(),
        }
    }
}

/// The lines that tell the changes of some teams.
pub open spec fn team_lines(diffs: Seq<TeamDiffView>) -> Seq<LogLineView>
    decreases diffs.len(),
{
    if diffs.len() == 0 {
        Seq::empty()
    } else {
        team_lines(diffs.drop_last()) + diffs.last().lines()
    }
}

/// The lines that tell the changes of some repositories.
pub open spec fn repo_lines(diffs: Seq<RepoDiffView>) -> Seq<LogLineView>
    decreases diffs.len(),
{
    if diffs.len() == 0 {
        Seq::empty()
    } else {
        repo_lines(diffs.drop_last()) + diffs.last().lines()
    }
}

impl DiffView {
    /// The lines that tell a diff: the teams, then the repositories, each under a heading if
    /// there are any.
    pub open spec fn lines(self) -> Seq<LogLineView> {
        let teams = if self.team_diffs.len() > 0 {
            seq![info("💻 Team Diffs:"@)]
        } else {
            Seq::empty()
        };
        let repos = if self.repo_diffs.len() > 0 {
            seq![info("💻 Repo Diffs:"@)]
        } else {
            Seq::empty()
        };
        teams + team_lines(self.team_diffs) + repos + repo_lines(self.repo_diffs)
    }
}

/// The lines that announce a call.
pub open spec fn call_lines(request: RequestView) -> Seq<LogLineView> {
    match request {
        RequestView::DeleteBranchProtection { org, repo, branch } => seq![
            debug(
                "Deleting branch protection for '"@ + branch + "' on '"@ + org + "/"@ + repo
                    + "' as the protection is not in the team repo"@,
            ),
        ],
        _ => Seq::empty(),
    }
}

/// The lines that tell what came of a call.
pub open spec fn reply_lines(request: RequestView, reply: ReplyView) -> Seq<LogLineView> {
    match (request, reply) {
        (
            RequestView::UpdateBranchProtection { org, repo, branch, .. },
            ReplyView::ProtectionUpdated(false),
        ) => seq![
            debug(
                "Did not update branch protection for '"@ + branch + "' on '"@ + org + "/"@ + repo
                    + "' as the branch does not exist."@,
            ),
        ],
        _ => Seq::empty(),
    }
}

fn push_info(lines: &mut Vec<LogLine>, message: String)
    ensures
        final(lines).deep_view() == old(lines).deep_view().push(info(message@)),
{
    let ghost before = lines.deep_view();
    let ghost text = message@;
    lines.push(LogLine { level: Level::Info, message });
    assert(lines.deep_view() =~= before.push(info(text)));
}

/// Adds a line for those who look closely.
pub(crate) fn push_debug(lines: &mut Vec<LogLine>, message: String)
    ensures
        final(lines).deep_view() == old(lines).deep_view().push(debug(message@)),
{
    let ghost before = lines.deep_view();
    let ghost text = message@;
    lines.push(LogLine { level: Level::Debug, message });
    assert(lines.deep_view() =~= before.push(debug(text)));
}

fn push_lines(lines: &mut Vec<LogLine>, mut more: Vec<LogLine>)
    ensures
        final(lines).deep_view() == old(lines).deep_view() + more.deep_view(),
{
    let ghost before = lines.deep_view();
    let ghost added = more.deep_view();
    lines.append(&mut more);
    assert(lines.deep_view() =~= before + added);
}

/// A log without lines.
pub(crate) fn no_lines() -> (lines: Vec<LogLine>)
    ensures
        lines.deep_view() == Seq::<LogLineView>::empty(),
{
    let lines: Vec<LogLine> = Vec::new();
    assert(lines.deep_view() =~= Seq::empty());
    lines
}

fn write_permission(permission: RepoPermission) -> (text: &'static str)
    ensures
        text@ == permission_text(permission),
{
    match permission {
        RepoPermission::Write => "write",
        RepoPermission::Admin => "admin",
        RepoPermission::Maintain => "maintain",
        RepoPermission::Triage => "triage",
    }
}

fn write_role(role: TeamRole) -> (text: &'static str)
    ensures
        text@ == role_text(role),
{
    match role {
        TeamRole::Member => "member",
        TeamRole::Maintainer => "maintainer",
    }
}

fn write_privacy(privacy: TeamPrivacy) -> (text: &'static str)
    ensures
        text@ == privacy_text(privacy),
{
    match privacy {
        TeamPrivacy::Secret => "secret",
        TeamPrivacy::Closed => "closed",
    }
}

fn write_checks(checks: &Vec<Check>) -> (text: String)
    ensures
        text@ == checks_text(checks.deep_view()),
{
    let mut items: Vec<String> = Vec::new();
    for i in 0..checks.len()
        invariant
            items.len() == i,
            forall|j: int|
                0 <= j < i ==> #[trigger] items@[j]@ == check_text(checks@[j].deep_view()),
    {
        let context = write_quoted(checks[i].context.as_str());
        items.push(cat3("Check { context: ", context.as_str(), " }"));
    }
    assert(items.deep_view() =~= checks.deep_view().map_values(
        |check: CheckView| check_text(check),
    ));
    write_list(&items)
}

fn write_users(users: &Vec<UserRestriction>) -> (text: String)
    ensures
        text@ == users_text(users.deep_view()),
{
    let mut items: Vec<String> = Vec::new();
    for i in 0..users.len()
        invariant
            items.len() == i,
            forall|j: int|
                0 <= j < i ==> #[trigger] items@[j]@ == user_text(users@[j].deep_view()),
    {
        let UserRestriction::Name(name) = &users[i];
        let name = write_quoted(name.as_str());
        items.push(cat3("Name(", name.as_str(), ")"));
    }
    assert(items.deep_view() =~= users.deep_view().map_values(
        |user: UserRestrictionView| user_text(user),
    ));
    write_list(&items)
}

impl Request {
    /// Announces the call.
    pub fn log(&self) -> (lines: Vec<LogLine>)
        ensures
            lines.deep_view() == call_lines(self.deep_view()),
    {
        let mut lines = no_lines();
        if let Request::DeleteBranchProtection { org, repo, branch } = self {
            let place = cat6(
                "Deleting branch protection for '",
                branch.as_str(),
                "' on '",
                org.as_str(),
                "/",
                repo.as_str(),
            );
            push_debug(
                &mut lines,
                cat2(place.as_str(), "' as the protection is not in the team repo"),
            );
        }
        assert(lines.deep_view() =~= call_lines(self.deep_view()));
        lines
    }
}

impl Reply {
    /// Tells what came of a call.
    pub fn log(&self, request: &Request) -> (lines: Vec<LogLine>)
        ensures
            lines.deep_view() == reply_lines(request.deep_view(), self.deep_view()),
    {
        let mut lines = no_lines();
        if let Request::UpdateBranchProtection { org, repo, branch, .. } = request {
            if let Reply::ProtectionUpdated(updated) = self {
                if !*updated {
                    let place = cat6(
                        "Did not update branch protection for '",
                        branch.as_str(),
                        "' on '",
                        org.as_str(),
                        "/",
                        repo.as_str(),
                    );
                    push_debug(
                        &mut lines,
                        cat2(place.as_str(), "' as the branch does not exist."),
                    );
                }
            }
        }
        assert(lines.deep_view() =~= reply_lines(request.deep_view(), self.deep_view()));
        lines
    }
}

/// Tells the protection of a branch.
pub fn log_branch_protection(branch_name: &String, branch_protection: &BranchProtection) -> (lines:
    Vec<LogLine>)
    ensures
        lines.deep_view() == protection_lines(branch_name@, branch_protection.deep_view()),
{
    let reviews = &branch_protection.required_pull_request_reviews;
    let count = write_decimal(reviews.required_approving_review_count);
    let checks = write_checks(&branch_protection.required_status_checks.checks);
    let users = write_users(&branch_protection.restrictions.users);
    let teams = write_names(&branch_protection.restrictions.teams);
    let mut lines = no_lines();
    push_info(&mut lines, cat2("     ", branch_name.as_str()));
    push_info(
        &mut lines,
        cat2("         Dismiss Stale Reviews: ", write_bool(reviews.dismiss_stale_reviews)),
    );
    push_info(&mut lines, cat2("         Required Approving Review Count: ", count.as_str()));
    push_info(&mut lines, cat2("         Checks: ", checks.as_str()));
    push_info(&mut lines, cat2("         User Overrides: ", users.as_str()));
    push_info(&mut lines, cat2("         Team Overrides: ", teams.as_str()));
    assert(lines.deep_view() =~= protection_lines(branch_name@, branch_protection.deep_view()));
    lines
}

fn push_change(
    lines: &mut Vec<LogLine>,
    same: bool,
    label: &'static str,
    old_text: &str,
    new_text: &str,
)
    ensures
        final(lines).deep_view() == old(lines).deep_view() + change_line(
            same,
            label@,
            old_text@,
            new_text@,
        ),
{
    let ghost before = lines.deep_view();
    if !same {
        push_info(lines, cat4(label, old_text, " => ", new_text));
    }
    assert(lines.deep_view() =~= before + change_line(same, label@, old_text@, new_text@));
}

impl BranchProtectionDiff {
    /// Tells the change of a protection.
    pub fn log(&self) -> (lines: Vec<LogLine>)
        ensures
            lines.deep_view() == self.deep_view().lines(),
    {
        let mut lines = no_lines();
        match &self.operation {
            BranchProtectionDiffOperation::CreateWithBranch(protection, _) => {
                push_info(&mut lines, cat2("      Creating branch ", self.name.as_str()));
                push_lines(&mut lines, log_branch_protection(&self.name, protection));
            },
            BranchProtectionDiffOperation::Create(protection) => {
                push_lines(&mut lines, log_branch_protection(&self.name, protection));
            },
            BranchProtectionDiffOperation::Update(before, after) => {
                let old_reviews = &before.required_pull_request_reviews;
                let new_reviews = &after.required_pull_request_reviews;
                push_info(&mut lines, cat3("      ", self.name.as_str(), " protection:"));
                push_change(
                    &mut lines,
                    old_reviews.dismiss_stale_reviews == new_reviews.dismiss_stale_reviews,
                    "        Dismiss Stale Reviews: ",
                    write_bool(old_reviews.dismiss_stale_reviews),
                    write_bool(new_reviews.dismiss_stale_reviews),
                );
                push_change(
                    &mut lines,
                    old_reviews.required_approving_review_count
                        == new_reviews.required_approving_review_count,
                    "        Required Approving Review Count: ",
                    write_decimal(old_reviews.required_approving_review_count).as_str(),
                    write_decimal(new_reviews.required_approving_review_count).as_str(),
                );
                let old_checks = &before.required_status_checks.checks;
                let new_checks = &after.required_status_checks.checks;
                push_change(
                    &mut lines,
                    same_checks(old_checks, new_checks),
                    "        Checks: ",
                    write_checks(old_checks).as_str(),
                    write_checks(new_checks).as_str(),
                );
                let old_users = &before.restrictions.users;
                let new_users = &after.restrictions.users;
                push_change(
                    &mut lines,
                    same_users(old_users, new_users),
                    "        User Overrides: ",
                    write_users(old_users).as_str(),
                    write_users(new_users).as_str(),
                );
                let old_teams = &before.restrictions.teams;
                let new_teams = &after.restrictions.teams;
                push_change(
                    &mut lines,
                    same_names(old_teams, new_teams),
                    "        Team Overrides: ",
                    write_names(old_teams).as_str(),
                    write_names(new_teams).as_str(),
                );
            },
            BranchProtectionDiffOperation::Delete => {
                push_info(
                    &mut lines,
                    cat3("Deleting branch protection for branch '", self.name.as_str(), "'"),
                );
            },
        }
        assert(lines.deep_view() =~= self.deep_view().lines());
        lines
    }
}

impl RepoPermissionAssignmentDiff {
    /// Tells the change of an access.
    pub fn log(&self) -> (line: LogLine)
        ensures
            line.deep_view() == self.deep_view().line(),
    {
        let name = match &self.collaborator {
            RepoCollaborator::Team(name) => cat3("team '", name.as_str(), "'"),
            RepoCollaborator::User(name) => cat3("user '", name.as_str(), "'"),
        };
        let message = match &self.diff {
            RepoPermissionDiff::Create(permission) => cat5(
                "Giving ",
                name.as_str(),
                " ",
                write_permission(*permission),
                " permission",
            ),
            RepoPermissionDiff::Update(before, after) => cat6(
                "Changing ",
                name.as_str(),
                "'s permission from ",
                write_permission(*before),
                " to ",
                write_permission(*after),
            ),
            RepoPermissionDiff::Delete(permission) => cat5(
                "Removing ",
                name.as_str(),
                "'s ",
                write_permission(*permission),
                " permission ",
            ),
        };
        LogLine { level: Level::Info, message }
    }
}

impl CreateRepoDiff {
    /// Tells of a new repository.
    pub fn log(&self) -> (lines: Vec<LogLine>)
        ensures
            lines.deep_view() == self.deep_view().lines(),
    {
        let ghost view = self.deep_view();
        let mut lines = no_lines();
        push_info(&mut lines, "➕ Creating repo:".to_owned());
        push_info(&mut lines, cat2("  Org: ", self.org.as_str()));
        push_info(&mut lines, cat2("  Name: ", self.name.as_str()));
        push_info(&mut lines, cat2("  Description: ", self.description.as_str()));
        push_info(&mut lines, "  Permissions:".to_owned());
        let ghost first = lines.deep_view();
        let ghost access = view.permissions.map_values(
            |permission: (RepoCollaboratorView, RepoPermission)|
                (RepoPermissionAssignmentDiffView {
                    collaborator: permission.0,
                    diff: RepoPermissionDiff::Create(permission.1),
                }).line(),
        );
        assert(first =~= first + access.take(0));
        for i in 0..self.permissions.len()
            invariant
                view == self.deep_view(),
                access.len() == self.permissions.len(),
                forall|j: int|
                    0 <= j < access.len() ==> #[trigger] access[j] == (
                    RepoPermissionAssignmentDiffView {
                        collaborator: view.permissions[j].0,
                        diff: RepoPermissionDiff::Create(view.permissions[j].1),
                    }).line(),
                lines.deep_view() == first + access.take(i as int),
        {
            let (collaborator, permission) = &self.permissions[i];
            let diff = RepoPermissionAssignmentDiff {
                collaborator: collaborator.clone(),
                diff: RepoPermissionDiff::Create(*permission),
            };
            let ghost before = lines.deep_view();
            lines.push(diff.log());
            proof {
                assert(view.permissions[i as int] == self.permissions@[i as int].deep_view());
                assert(lines.deep_view() =~= before.push(access[i as int]));
                assert(lines.deep_view() =~= first + access.take(i + 1));
            }
        }
        assert(access.take(access.len() as int) =~= access);
        push_info(&mut lines, "  Branch Protections:".to_owned());
        let ghost second = lines.deep_view();
        let ghost protections = view.branch_protections;
        assert(second =~= second + all_protection_lines(protections.take(0)));
        for i in 0..self.branch_protections.len()
            invariant
                view == self.deep_view(),
                protections == view.branch_protections,
                lines.deep_view() == second + all_protection_lines(protections.take(i as int)),
        {
            let (branch_name, branch_protection) = &self.branch_protections[i];
            push_lines(&mut lines, log_branch_protection(branch_name, branch_protection));
            proof {
                let next = protections.take(i + 1);
                assert(next.drop_last() =~= protections.take(i as int));
                assert(next.last() == self.branch_protections@[i as int].deep_view());
                assert(lines.deep_view() =~= second + all_protection_lines(next));
            }
        }
        assert(protections.take(self.branch_protections.len() as int) =~= protections);
        assert(lines.deep_view() =~= view.lines());
        lines
    }
}

impl UpdateRepoDiff {
    /// Tells what is changed in a repository.
    pub fn log(&self) -> (lines: Vec<LogLine>)
        ensures
            lines.deep_view() == self.deep_view().lines(),
    {
        let ghost view = self.deep_view();
        let mut lines = no_lines();
        if self.noop() {
            return lines;
        }
        push_info(
            &mut lines,
            cat5("📝 Editing repo '", self.org.as_str(), "/", self.name.as_str(), "':"),
        );
        if let Some(name) = &self.name_diff {
            push_info(&mut lines, cat2("  Changing name to: ", name.as_str()));
        }
        if let Some((before, after)) = &self.description_diff {
            if let Some(before) = before {
                push_info(
                    &mut lines,
                    cat5("  New description: '", before.as_str(), "' => '", after.as_str(), "'"),
                );
            } else {
                push_info(&mut lines, cat3("  Set description: '", after.as_str(), "'"));
            }
        }
        if self.permission_diffs.len() > 0 {
            push_info(&mut lines, "  Permission Changes:".to_owned());
        }
        let ghost first = lines.deep_view();
        let ghost access = view.permission_diffs.map_values(
            |diff: RepoPermissionAssignmentDiffView| diff.line(),
        );
        assert(first =~= first + access.take(0));
        for i in 0..self.permission_diffs.len()
            invariant
                view == self.deep_view(),
                access == view.permission_diffs.map_values(
                    |diff: RepoPermissionAssignmentDiffView| diff.line(),
                ),
                lines.deep_view() == first + access.take(i as int),
        {
            let ghost before = lines.deep_view();
            lines.push(self.permission_diffs[i].log());
            proof {
                assert(lines.deep_view() =~= before.push(access[i as int]));
                assert(lines.deep_view() =~= first + access.take(i + 1));
            }
        }
        assert(access.take(access.len() as int) =~= access);
        let ghost second = lines.deep_view();
        let ghost diffs = view.branch_protection_diffs;
        assert(second =~= second + protection_diff_lines(diffs.take(0)));
        for i in 0..self.branch_protection_diffs.len()
            invariant
                view == self.deep_view(),
                diffs == view.branch_protection_diffs,
                lines.deep_view() == second + protection_diff_lines(diffs.take(i as int)),
        {
            push_lines(&mut lines, self.branch_protection_diffs[i].log());
            proof {
                let next = diffs.take(i + 1);
                assert(next.drop_last() =~= diffs.take(i as int));
                assert(next.last() == self.branch_protection_diffs@[i as int].deep_view());
                assert(lines.deep_view() =~= second + protection_diff_lines(next));
            }
        }
        assert(diffs.take(self.branch_protection_diffs.len() as int) =~= diffs);
        assert(lines.deep_view() =~= view.lines());
        lines
    }

    /// Tells whether nothing is to be changed.
    pub fn noop(&self) -> (noop: bool)
        ensures
            noop == self.deep_view().is_noop(),
    {
        self.name_diff.is_none() && self.description_diff.is_none() && self.permission_diffs.len()
            == 0 && self.branch_protection_diffs.len() == 0
    }
}

impl RepoDiff {
    /// Tells the change of a repository.
    pub fn log(&self) -> (lines: Vec<LogLine>)
        ensures
            lines.deep_view() == self.deep_view().lines(),
    {
        match self {
            RepoDiff::Create(create) => create.log(),
            RepoDiff::Update(update) => update.log(),
        }
    }
}

impl CreateTeamDiff {
    /// Tells of a new team.
    pub fn log(&self) -> (lines: Vec<LogLine>)
        ensures
            lines.deep_view() == self.deep_view().lines(),
    {
        let ghost view = self.deep_view();
        let ghost all = view.lines();
        let mut lines = no_lines();
        push_info(&mut lines, "➕ Creating team:".to_owned());
        push_info(&mut lines, cat2("  Org: ", self.org.as_str()));
        push_info(&mut lines, cat2("  Name: ", self.name.as_str()));
        push_info(&mut lines, cat2("  Description: ", self.description.as_str()));
        push_info(&mut lines, cat2("  Privacy: ", write_privacy(self.privacy)));
        push_info(&mut lines, "  Members:".to_owned());
        assert(lines.deep_view() =~= all.take(6));
        for i in 0..self.members.len()
            invariant
                view == self.deep_view(),
                all == view.lines(),
                lines.deep_view() == all.take(6 + i),
        {
            let (name, role) = &self.members[i];
            push_info(&mut lines, cat4("    ", name.as_str(), ": ", write_role(*role)));
            proof {
                assert(view.members[i as int] == self.members@[i as int].deep_view());
                assert(lines.deep_view() =~= all.take(7 + i));
            }
        }
        assert(lines.deep_view() =~= all);
        lines
    }
}

impl MemberDiff {
    /// Tells whether nothing happens to the member.
    pub fn is_noop(&self) -> (noop: bool)
        ensures
            noop == (*self is Noop),
    {
        matches!(self, MemberDiff::Noop)
    }
}

fn log_member(member: &String, diff: &MemberDiff) -> (line: LogLine)
    ensures
        line.deep_view() == member_line(member@, *diff),
{
    match diff {
        MemberDiff::Create(role) => LogLine {
            level: Level::Info,
            message: cat5(
                "  Adding member '",
                member.as_str(),
                "' with ",
                write_role(*role),
                " role",
            ),
        },
        MemberDiff::ChangeRole((before, after)) => LogLine {
            level: Level::Info,
            message: cat6(
                "  Changing '",
                member.as_str(),
                "' role from ",
                write_role(*before),
                " to ",
                write_role(*after),
            ),
        },
        MemberDiff::Delete => LogLine {
            level: Level::Info,
            message: cat3("  Deleting member '", member.as_str(), "'"),
        },
        MemberDiff::Noop => LogLine {
            level: Level::Debug,
            message: cat3("  Member '", member.as_str(), "' stays the same"),
        },
    }
}

impl EditTeamDiff {
    /// Tells what is changed in a team.
    pub fn log(&self) -> (lines: Vec<LogLine>)
        ensures
            lines.deep_view() == self.deep_view().lines(),
    {
        let ghost view = self.deep_view();
        let mut lines = no_lines();
        if self.noop() {
            return lines;
        }
        push_info(&mut lines, cat3("📝 Editing team '", self.name.as_str(), "':"));
        if let Some(name) = &self.name_diff {
            push_info(&mut lines, cat2("  New name: ", name.as_str()));
        }
        if let Some((before, after)) = &self.description_diff {
            push_info(
                &mut lines,
                cat5("  New description: '", before.as_str(), "' => '", after.as_str(), "'"),
            );
        }
        if let Some((before, after)) = &self.privacy_diff {
            push_info(
                &mut lines,
                cat5(
                    "  New privacy: '",
                    write_privacy(*before),
                    "' => '",
                    write_privacy(*after),
                    "'",
                ),
            );
        }
        let ghost first = lines.deep_view();
        let ghost members = view.member_diffs.map_values(
            |entry: (Seq<char>, MemberDiff)| member_line(entry.0, entry.1),
        );
        assert(first =~= first + members.take(0));
        for i in 0..self.member_diffs.len()
            invariant
                view == self.deep_view(),
                members == view.member_diffs.map_values(
                    |entry: (Seq<char>, MemberDiff)| member_line(entry.0, entry.1),
                ),
                lines.deep_view() == first + members.take(i as int),
        {
            let (member, diff) = &self.member_diffs[i];
            let ghost before = lines.deep_view();
            lines.push(log_member(member, diff));
            proof {
                assert(view.member_diffs[i as int] == self.member_diffs@[i as int].deep_view());
                assert(lines.deep_view() =~= before.push(members[i as int]));
                assert(lines.deep_view() =~= first + members.take(i + 1));
            }
        }
        assert(members.take(members.len() as int) =~= members);
        assert(lines.deep_view() =~= view.lines());
        lines
    }

    /// Tells whether nothing is to be changed.
    pub fn noop(&self) -> (noop: bool)
        ensures
            noop == self.deep_view().is_noop(),
    {
        if self.name_diff.is_some() || self.description_diff.is_some()
            || self.privacy_diff.is_some() {
            return false;
        }
        let ghost view = self.deep_view();
        for i in 0..self.member_diffs.len()
            invariant
                view == self.deep_view(),
                forall|j: int| 0 <= j < i ==> (#[trigger] view.member_diffs[j]).1 is Noop,
        {
            assert(view.member_diffs[i as int] == self.member_diffs@[i as int].deep_view());
            if !self.member_diffs[i].1.is_noop() {
                return false;
            }
        }
        true
    }
}

impl DeleteTeamDiff {
    /// Tells of a team that is deleted.
    pub fn log(&self) -> (lines: Vec<LogLine>)
        ensures
            lines.deep_view() == self.deep_view().lines(),
    {
        let mut lines = no_lines();
        push_info(&mut lines, "❌ Deleting team:".to_owned());
        push_info(&mut lines, cat2("  Org: ", self.org.as_str()));
        push_info(&mut lines, cat2("  Name: ", self.name.as_str()));
        assert(lines.deep_view() =~= self.deep_view().lines());
        lines
    }
}

impl TeamDiff {
    /// Tells the change of a team.
    pub fn log(&self) -> (lines: Vec<LogLine>)
        ensures
            lines.deep_view() == self.deep_view().lines(),
    {
        match self {
            TeamDiff::Create(create) => create.log(),
            TeamDiff::Edit(edit) => edit.log(),
            TeamDiff::Delete(delete) => delete.log(),
        }
    }
}

impl Diff {
    /// Tells the diff.
    pub fn log(&self) -> (lines: Vec<LogLine>)
        ensures
            lines.deep_view() == self.deep_view().lines(),
    {
        let ghost view = self.deep_view();
        let mut lines = no_lines();
        if self.team_diffs.len() > 0 {
            push_info(&mut lines, "💻 Team Diffs:".to_owned());
        }
        let ghost first = lines.deep_view();
        assert(first =~= first + team_lines(view.team_diffs.take(0)));
        for i in 0..self.team_diffs.len()
            invariant
                view == self.deep_view(),
                lines.deep_view() == first + team_lines(view.team_diffs.take(i as int)),
        {
            push_lines(&mut lines, self.team_diffs[i].log());
            proof {
                let next = view.team_diffs.take(i + 1);
                assert(next.drop_last() =~= view.team_diffs.take(i as int));
                assert(next.last() == self.team_diffs@[i as int].deep_view());
                assert(lines.deep_view() =~= first + team_lines(next));
            }
        }
        assert(view.team_diffs.take(self.team_diffs.len() as int) =~= view.team_diffs);
        if self.repo_diffs.len() > 0 {
            push_info(&mut lines, "💻 Repo Diffs:".to_owned());
        }
        let ghost second = lines.deep_view();
        assert(second =~= second + repo_lines(view.repo_diffs.take(0)));
        for i in 0..self.repo_diffs.len()
            invariant
                view == self.deep_view(),
                lines.deep_view() == second + repo_lines(view.repo_diffs.take(i as int)),
        {
            push_lines(&mut lines, self.repo_diffs[i].log());
            proof {
                let next = view.repo_diffs.take(i + 1);
                assert(next.drop_last() =~= view.repo_diffs.take(i as int));
                assert(next.last() == self.repo_diffs@[i as int].deep_view());
                assert(lines.deep_view() =~= second + repo_lines(next));
            }
        }
        assert(view.repo_diffs.take(self.repo_diffs.len() as int) =~= view.repo_diffs);
        assert(lines.deep_view() =~= view.lines());
        lines
    }
}

} // verus!
