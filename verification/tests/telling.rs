use team_sync::api::{
    BranchProtection, Check, EnforceAdmins, PullRequestReviews, RepoPermission,
    RequiredStatusChecks, Restrictions, TeamPrivacy, TeamRole, UserRestriction,
};
use team_sync::call::{Reply, Request};
use team_sync::diff::{
    BranchProtectionDiff, BranchProtectionDiffOperation, CreateRepoDiff, CreateTeamDiff,
    DeleteTeamDiff, Diff, EditTeamDiff, MemberDiff, RepoCollaborator, RepoDiff,
    RepoPermissionAssignmentDiff, RepoPermissionDiff, TeamDiff, UpdateRepoDiff,
};
use team_sync::log::{log_branch_protection, Level, LogLine};
use team_sync::text::{write_decimal, write_names};

fn protection(count: u8) -> BranchProtection {
    BranchProtection {
        required_status_checks: RequiredStatusChecks {
            strict: false,
            checks: vec![
                Check { context: "a \"quoted\" check".to_string() },
                Check { context: "b".to_string() },
            ],
        },
        enforce_admins: EnforceAdmins::Bool(true),
        required_pull_request_reviews: PullRequestReviews {
            dismissal_restrictions: Vec::new(),
            dismiss_stale_reviews: true,
            required_approving_review_count: count,
        },
        restrictions: Restrictions {
            users: vec![UserRestriction::Name("bors".to_string())],
            teams: vec!["core".to_string(), "tab\there".to_string()],
        },
    }
}

fn infos(lines: &Vec<LogLine>) -> Vec<&str> {
    lines
        .iter()
        .map(|line| {
            assert_eq!(line.level, Level::Info);
            line.message.as_str()
        })
        .collect()
}

fn edit() -> EditTeamDiff {
    EditTeamDiff {
        org: "rust-lang".to_string(),
        name: "core".to_string(),
        name_diff: None,
        description_diff: None,
        privacy_diff: None,
        member_diffs: vec![("ferris".to_string(), MemberDiff::Noop)],
    }
}

fn update() -> UpdateRepoDiff {
    UpdateRepoDiff {
        org: "rust-lang".to_string(),
        name: "rust".to_string(),
        name_diff: None,
        description_diff: None,
        permission_diffs: Vec::new(),
        branch_protection_diffs: Vec::new(),
    }
}

#[test]
fn numbers_are_written_in_decimal() {
    for n in 0..=255u8 {
        assert_eq!(write_decimal(n), format!("{n}"));
    }
}

#[test]
fn names_are_quoted_and_escaped() {
    for names in [
        vec![],
        vec!["a".to_string()],
        vec!["say \"hi\"".to_string(), "back\\slash".to_string(), "new\nline\u{7f}é".to_string()],
    ] {
        assert_eq!(write_names(&names), format!("{names:?}"));
    }
}

#[test]
fn a_protection_is_told_line_by_line() {
    let protection = protection(1);
    let lines = log_branch_protection(&"master".to_string(), &protection);
    assert_eq!(
        infos(&lines),
        vec![
            "     master",
            "         Dismiss Stale Reviews: true",
            "         Required Approving Review Count: 1",
            "         Checks: [Check { context: \"a \\\"quoted\\\" check\" }, \
             Check { context: \"b\" }]",
            "         User Overrides: [Name(\"bors\")]",
            "         Team Overrides: [\"core\", \"tab\\there\"]",
        ]
    );
    assert_eq!(
        lines[3].message,
        format!("         Checks: {:?}", protection.required_status_checks.checks)
    );
    assert_eq!(
        lines[4].message,
        format!("         User Overrides: {:?}", protection.restrictions.users)
    );
    assert_eq!(
        lines[5].message,
        format!("         Team Overrides: {:?}", protection.restrictions.teams)
    );
}

#[test]
fn a_branch_that_is_created_is_told_with_its_protection() {
    let diff = BranchProtectionDiff {
        name: "beta".to_string(),
        operation: BranchProtectionDiffOperation::CreateWithBranch(
            protection(0),
            "abc".to_string(),
        ),
    };
    let lines = diff.log();
    assert_eq!(lines.len(), 7);
    assert_eq!(infos(&lines)[0], "      Creating branch beta");
    assert_eq!(infos(&lines)[1], "     beta");
    let diff = BranchProtectionDiff {
        name: "beta".to_string(),
        operation: BranchProtectionDiffOperation::Create(protection(0)),
    };
    assert_eq!(diff.log(), log_branch_protection(&"beta".to_string(), &protection(0)));
}

#[test]
fn only_what_changes_in_a_protection_is_told() {
    let old = protection(10);
    let mut new = protection(1);
    new.required_pull_request_reviews.dismiss_stale_reviews = false;
    new.required_status_checks.checks = Vec::new();
    new.restrictions.users = Vec::new();
    new.restrictions.teams = vec!["infra".to_string()];
    let diff = |old: &BranchProtection, new: &BranchProtection| BranchProtectionDiff {
        name: "master".to_string(),
        operation: BranchProtectionDiffOperation::Update(old.clone(), new.clone()),
    };
    assert_eq!(
        infos(&diff(&old, &new).log()),
        vec![
            "      master protection:",
            "        Dismiss Stale Reviews: true => false",
            "        Required Approving Review Count: 10 => 1",
            "        Checks: [Check { context: \"a \\\"quoted\\\" check\" }, \
             Check { context: \"b\" }] => []",
            "        User Overrides: [Name(\"bors\")] => []",
            "        Team Overrides: [\"core\", \"tab\\there\"] => [\"infra\"]",
        ]
    );
    let mut strict = old.clone();
    strict.required_status_checks.strict = true;
    assert_eq!(infos(&diff(&old, &strict).log()), vec!["      master protection:"]);
}

#[test]
fn a_protection_that_is_removed_is_told() {
    let diff = BranchProtectionDiff {
        name: "old".to_string(),
        operation: BranchProtectionDiffOperation::Delete,
    };
    assert_eq!(infos(&diff.log()), vec!["Deleting branch protection for branch 'old'"]);
}

#[test]
fn changes_of_access_are_told() {
    let line = |collaborator: RepoCollaborator, diff: RepoPermissionDiff| {
        let line = RepoPermissionAssignmentDiff { collaborator, diff }.log();
        assert_eq!(line.level, Level::Info);
        line.message
    };
    let team = || RepoCollaborator::Team("infra".to_string());
    let user = || RepoCollaborator::User("ferris".to_string());
    assert_eq!(
        line(team(), RepoPermissionDiff::Create(RepoPermission::Write)),
        "Giving team 'infra' write permission"
    );
    assert_eq!(
        line(
            user(),
            RepoPermissionDiff::Update(RepoPermission::Admin, RepoPermission::Maintain)
        ),
        "Changing user 'ferris''s permission from admin to maintain"
    );
    assert_eq!(
        line(user(), RepoPermissionDiff::Delete(RepoPermission::Triage)),
        "Removing user 'ferris''s triage permission "
    );
}

#[test]
fn a_new_repository_is_told() {
    let create = CreateRepoDiff {
        org: "rust-lang".to_string(),
        name: "rust".to_string(),
        description: "The compiler".to_string(),
        permissions: vec![(RepoCollaborator::Team("infra".to_string()), RepoPermission::Admin)],
        branch_protections: vec![("master".to_string(), protection(1))],
    };
    let lines = create.log();
    assert_eq!(
        infos(&lines)[..8],
        [
            "➕ Creating repo:",
            "  Org: rust-lang",
            "  Name: rust",
            "  Description: The compiler",
            "  Permissions:",
            "Giving team 'infra' admin permission",
            "  Branch Protections:",
            "     master",
        ]
    );
    assert_eq!(lines.len(), 13);
}

#[test]
fn an_update_is_told_unless_it_changes_nothing() {
    assert!(update().noop());
    assert!(update().log().is_empty());
    let mut changed = update();
    changed.name_diff = Some("Rust".to_string());
    changed.description_diff = Some((Some("old".to_string()), "new".to_string()));
    changed.permission_diffs = vec![RepoPermissionAssignmentDiff {
        collaborator: RepoCollaborator::Team("infra".to_string()),
        diff: RepoPermissionDiff::Create(RepoPermission::Write),
    }];
    changed.branch_protection_diffs = vec![BranchProtectionDiff {
        name: "old".to_string(),
        operation: BranchProtectionDiffOperation::Delete,
    }];
    assert_eq!(
        infos(&changed.log()),
        vec![
            "📝 Editing repo 'rust-lang/rust':",
            "  Changing name to: Rust",
            "  New description: 'old' => 'new'",
            "  Permission Changes:",
            "Giving team 'infra' write permission",
            "Deleting branch protection for branch 'old'",
        ]
    );
    let mut described = update();
    described.description_diff = Some((None, "new".to_string()));
    assert_eq!(
        infos(&described.log()),
        vec!["📝 Editing repo 'rust-lang/rust':", "  Set description: 'new'"]
    );
}

#[test]
fn a_new_team_is_told() {
    let create = CreateTeamDiff {
        org: "rust-lang".to_string(),
        name: "core".to_string(),
        description: "Managed".to_string(),
        privacy: TeamPrivacy::Closed,
        members: vec![
            ("ferris".to_string(), TeamRole::Member),
            ("corro".to_string(), TeamRole::Maintainer),
        ],
    };
    assert_eq!(
        infos(&create.log()),
        vec![
            "➕ Creating team:",
            "  Org: rust-lang",
            "  Name: core",
            "  Description: Managed",
            "  Privacy: closed",
            "  Members:",
            "    ferris: member",
            "    corro: maintainer",
        ]
    );
    assert_eq!(TeamDiff::Create(create).log().len(), 8);
}

#[test]
fn an_edit_is_told_unless_it_changes_nothing() {
    assert!(edit().noop());
    assert!(edit().log().is_empty());
    let mut changed = edit();
    changed.name_diff = Some("Core".to_string());
    changed.description_diff = Some(("old".to_string(), "new".to_string()));
    changed.privacy_diff = Some((TeamPrivacy::Secret, TeamPrivacy::Closed));
    changed.member_diffs.push(("a".to_string(), MemberDiff::Create(TeamRole::Member)));
    changed.member_diffs.push((
        "b".to_string(),
        MemberDiff::ChangeRole((TeamRole::Member, TeamRole::Maintainer)),
    ));
    changed.member_diffs.push(("c".to_string(), MemberDiff::Delete));
    assert!(!changed.noop());
    let lines = changed.log();
    let messages: Vec<&str> = lines.iter().map(|line| line.message.as_str()).collect();
    assert_eq!(
        messages,
        vec![
            "📝 Editing team 'core':",
            "  New name: Core",
            "  New description: 'old' => 'new'",
            "  New privacy: 'secret' => 'closed'",
            "  Member 'ferris' stays the same",
            "  Adding member 'a' with member role",
            "  Changing 'b' role from member to maintainer",
            "  Deleting member 'c'",
        ]
    );
    let debug: Vec<usize> = lines
        .iter()
        .enumerate()
        .filter(|(_, line)| line.level == Level::Debug)
        .map(|(index, _)| index)
        .collect();
    assert_eq!(debug, vec![4]);
}

#[test]
fn only_a_member_that_stays_is_a_noop() {
    assert!(MemberDiff::Noop.is_noop());
    assert!(!MemberDiff::Delete.is_noop());
    assert!(!MemberDiff::Create(TeamRole::Member).is_noop());
    assert!(!MemberDiff::ChangeRole((TeamRole::Member, TeamRole::Maintainer)).is_noop());
    let mut changed = edit();
    changed.member_diffs.push(("a".to_string(), MemberDiff::Delete));
    assert!(!changed.noop());
}

#[test]
fn a_deleted_team_is_told() {
    let delete = DeleteTeamDiff { org: "rust-lang".to_string(), name: "old".to_string() };
    assert_eq!(
        infos(&delete.log()),
        vec!["❌ Deleting team:", "  Org: rust-lang", "  Name: old"]
    );
}

#[test]
fn a_diff_is_told_under_two_headings() {
    let empty = Diff { team_diffs: Vec::new(), repo_diffs: Vec::new() };
    assert!(empty.log().is_empty());
    let delete = DeleteTeamDiff { org: "rust-lang".to_string(), name: "old".to_string() };
    let mut renamed = update();
    renamed.name_diff = Some("Rust".to_string());
    let diff = Diff {
        team_diffs: vec![TeamDiff::Edit(edit()), TeamDiff::Delete(delete)],
        repo_diffs: vec![RepoDiff::Update(update()), RepoDiff::Update(renamed)],
    };
    assert_eq!(
        infos(&diff.log()),
        vec![
            "💻 Team Diffs:",
            "❌ Deleting team:",
            "  Org: rust-lang",
            "  Name: old",
            "💻 Repo Diffs:",
            "📝 Editing repo 'rust-lang/rust':",
            "  Changing name to: Rust",
        ]
    );
}

#[test]
fn refused_and_removed_protections_are_told_closely() {
    let set = Request::UpdateBranchProtection {
        org: "rust-lang".to_string(),
        repo: "rust".to_string(),
        branch: "beta".to_string(),
        protection: protection(1),
    };
    assert!(set.log().is_empty());
    assert!(Reply::ProtectionUpdated(true).log(&set).is_empty());
    let refused = Reply::ProtectionUpdated(false).log(&set);
    assert_eq!(refused.len(), 1);
    assert_eq!(refused[0].level, Level::Debug);
    assert_eq!(
        refused[0].message,
        "Did not update branch protection for 'beta' on 'rust-lang/rust' as the branch does not \
         exist."
    );
    let remove = Request::DeleteBranchProtection {
        org: "rust-lang".to_string(),
        repo: "rust".to_string(),
        branch: "old".to_string(),
    };
    let told = remove.log();
    assert_eq!(told.len(), 1);
    assert_eq!(told[0].level, Level::Debug);
    assert_eq!(
        told[0].message,
        "Deleting branch protection for 'old' on 'rust-lang/rust' as the protection is not in the \
         team repo"
    );
    assert!(Reply::Done.log(&remove).is_empty());
}
