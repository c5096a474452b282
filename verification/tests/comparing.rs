use std::collections::HashMap;

use team_sync::api::{self, RepoPermission, RepoTeam, RepoUser, TeamMember, TeamPrivacy, TeamRole};
use team_sync::branches::BranchState;
use team_sync::diff::{
    BranchProtectionDiff, BranchProtectionDiffOperation, CreateTeamDiff, DeleteTeamDiff,
    EditTeamDiff, MemberDiff, RepoCollaborator, RepoDiff, RepoPermissionAssignmentDiff,
    RepoPermissionDiff, TeamDiff,
};
use team_sync::repos::ActualRepo;
use team_sync::rules::branch_protection;
use team_sync::sync::SyncGitHub;
use team_sync::team_data::{self, Bot, Branch, GitHubTeam, Repo, RepoMember, Team, TeamGitHub};
use team_sync::teams::ActualTeam;

fn sync() -> SyncGitHub {
    let usernames: HashMap<usize, String> =
        [(1, "ferris"), (2, "corro"), (3, "gopher")]
            .into_iter()
            .map(|(id, name)| (id, name.to_string()))
            .collect();
    let teams = vec![Team {
        github: Some(TeamGitHub {
            teams: vec![
                wanted_team(),
                GitHubTeam {
                    org: "rust-embedded".to_string(),
                    name: "wg".to_string(),
                    members: Vec::new(),
                },
            ],
        }),
    }];
    let owners = vec![vec![2], Vec::new()];
    SyncGitHub::new(teams, Vec::new(), usernames, owners)
}

fn wanted_team() -> GitHubTeam {
    GitHubTeam { org: "rust-lang".to_string(), name: "core".to_string(), members: vec![1, 2] }
}

fn actual_team(members: Vec<(usize, &str, TeamRole)>) -> ActualTeam {
    ActualTeam {
        team: api::Team {
            name: "core".to_string(),
            description: "Managed by the rust-lang/team repository.".to_string(),
            privacy: TeamPrivacy::Closed,
        },
        members: members
            .into_iter()
            .map(|(id, name, role)| (id, TeamMember { username: name.to_string(), role }))
            .collect(),
    }
}

fn member(name: &str, diff: MemberDiff) -> (String, MemberDiff) {
    (name.to_string(), diff)
}

fn edit(diff: TeamDiff) -> EditTeamDiff {
    match diff {
        TeamDiff::Edit(edit) => edit,
        other => panic!("not an edit: {other:?}"),
    }
}

fn team(name: &str, permission: RepoPermission) -> RepoTeam {
    RepoTeam { name: name.to_string(), permission }
}

fn user(name: &str, permission: RepoPermission) -> RepoUser {
    RepoUser { name: name.to_string(), permission }
}

fn team_change(name: &str, diff: RepoPermissionDiff) -> RepoPermissionAssignmentDiff {
    RepoPermissionAssignmentDiff { collaborator: RepoCollaborator::Team(name.to_string()), diff }
}

fn user_change(name: &str, diff: RepoPermissionDiff) -> RepoPermissionAssignmentDiff {
    RepoPermissionAssignmentDiff { collaborator: RepoCollaborator::User(name.to_string()), diff }
}

fn branch(name: &str) -> Branch {
    Branch {
        name: name.to_string(),
        ci_checks: vec!["ci".to_string()],
        dismiss_stale_review: false,
    }
}

fn wanted_repo() -> Repo {
    Repo {
        org: "rust-lang".to_string(),
        name: "rust".to_string(),
        description: "The compiler".to_string(),
        bots: vec![Bot::Bors, Bot::Highfive],
        teams: vec![
            team_data::RepoTeam {
                name: "compiler".to_string(),
                permission: team_data::RepoPermission::Write,
            },
            team_data::RepoTeam {
                name: "infra".to_string(),
                permission: team_data::RepoPermission::Admin,
            },
        ],
        members: vec![RepoMember {
            name: "ferris".to_string(),
            permission: team_data::RepoPermission::Triage,
        }],
        branches: vec![branch("master"), branch("beta")],
    }
}

fn settled_teams() -> Vec<RepoTeam> {
    vec![team("compiler", RepoPermission::Write), team("infra", RepoPermission::Admin)]
}

fn settled_users() -> Vec<RepoUser> {
    vec![
        user("bors", RepoPermission::Write),
        user("rust-highfive", RepoPermission::Write),
        user("ferris", RepoPermission::Triage),
    ]
}

fn actual_repo(description: Option<&str>) -> api::Repo {
    api::Repo {
        org: "rust-lang".to_string(),
        name: "rust".to_string(),
        description: description.map(|text| text.to_string()),
        default_branch: "master".to_string(),
    }
}

fn settled_branches(repo: &Repo) -> Vec<BranchState> {
    repo.branches
        .iter()
        .map(|branch| BranchState::Present { protection: Some(branch_protection(repo, branch)) })
        .collect()
}

#[test]
fn a_missing_team_is_created_with_its_members() {
    assert_eq!(
        sync().diff_team(&wanted_team(), &None),
        TeamDiff::Create(CreateTeamDiff {
            org: "rust-lang".to_string(),
            name: "core".to_string(),
            description: "Managed by the rust-lang/team repository.".to_string(),
            privacy: TeamPrivacy::Closed,
            members: vec![
                ("ferris".to_string(), TeamRole::Member),
                ("corro".to_string(), TeamRole::Maintainer),
            ],
        })
    );
}

#[test]
fn a_team_in_sync_is_left_alone() {
    let actual =
        actual_team(vec![(2, "corro", TeamRole::Maintainer), (1, "ferris", TeamRole::Member)]);
    let diff = edit(sync().diff_team(&wanted_team(), &Some(actual)));
    assert!(diff.noop());
    assert_eq!(
        diff.member_diffs,
        vec![member("ferris", MemberDiff::Noop), member("corro", MemberDiff::Noop)]
    );
}

#[test]
fn every_property_of_a_team_is_compared() {
    let mut actual =
        actual_team(vec![(1, "ferris", TeamRole::Member), (2, "corro", TeamRole::Maintainer)]);
    actual.team.name = "Core".to_string();
    actual.team.description = "The core team".to_string();
    actual.team.privacy = TeamPrivacy::Secret;
    let diff = edit(sync().diff_team(&wanted_team(), &Some(actual)));
    assert_eq!(diff.org, "rust-lang");
    assert_eq!(diff.name, "Core");
    assert_eq!(diff.name_diff, Some("core".to_string()));
    assert_eq!(
        diff.description_diff,
        Some((
            "The core team".to_string(),
            "Managed by the rust-lang/team repository.".to_string()
        ))
    );
    assert_eq!(diff.privacy_diff, Some((TeamPrivacy::Secret, TeamPrivacy::Closed)));
    assert!(!diff.noop());
}

#[test]
fn members_are_added_changed_and_deleted() {
    let actual = actual_team(vec![
        (3, "gopher", TeamRole::Member),
        (2, "corro", TeamRole::Member),
        (7, "ghost", TeamRole::Maintainer),
    ]);
    let diff = edit(sync().diff_team(&wanted_team(), &Some(actual)));
    assert_eq!(
        diff.member_diffs,
        vec![
            member("ferris", MemberDiff::Create(TeamRole::Member)),
            member("corro", MemberDiff::ChangeRole((TeamRole::Member, TeamRole::Maintainer))),
            member("gopher", MemberDiff::Delete),
            member("ghost", MemberDiff::Delete),
        ]
    );
}

#[test]
fn a_member_that_is_wanted_twice_is_added_the_second_time() {
    let mut wanted = wanted_team();
    wanted.members = vec![1, 1];
    let actual = actual_team(vec![(1, "ferris", TeamRole::Member)]);
    let diff = edit(sync().diff_team(&wanted, &Some(actual)));
    assert_eq!(
        diff.member_diffs,
        vec![
            member("ferris", MemberDiff::Noop),
            member("ferris", MemberDiff::Create(TeamRole::Member)),
        ]
    );
}

#[test]
fn a_member_that_is_listed_twice_counts_once() {
    let actual = actual_team(vec![
        (1, "ferris", TeamRole::Maintainer),
        (3, "gopher", TeamRole::Member),
        (1, "ferris", TeamRole::Member),
        (3, "gopher2", TeamRole::Member),
    ]);
    let diff = edit(sync().diff_team(&wanted_team(), &Some(actual)));
    assert_eq!(
        diff.member_diffs,
        vec![
            member("ferris", MemberDiff::Noop),
            member("corro", MemberDiff::Create(TeamRole::Maintainer)),
            member("gopher2", MemberDiff::Delete),
        ]
    );
}

#[test]
fn stray_teams_of_rust_lang_are_deleted_once() {
    let names = |names: &[&str]| names.iter().map(|name| name.to_string()).collect();
    let listings = vec![
        ("rust-lang".to_string(), names(&["old", "bors", "core", "wg", "bots", "old"])),
        ("rust-embedded".to_string(), names(&["older"])),
    ];
    let delete = |name: &str| {
        TeamDiff::Delete(DeleteTeamDiff { org: "rust-lang".to_string(), name: name.to_string() })
    };
    assert_eq!(sync().diff_deleted_teams(&listings), vec![delete("old"), delete("wg")]);
}

#[test]
fn teams_that_were_not_listed_are_not_deleted() {
    let listings = vec![("rust-embedded".to_string(), vec!["older".to_string()])];
    assert!(sync().diff_deleted_teams(&listings).is_empty());
}

#[test]
fn access_in_sync_needs_no_change() {
    let diffs = sync().diff_permissions(&wanted_repo(), &settled_teams(), &settled_users());
    assert_eq!(diffs, Vec::new());
}

#[test]
fn access_is_given_changed_and_taken_away() {
    let teams = vec![team("stray", RepoPermission::Admin), team("infra", RepoPermission::Write)];
    let users = vec![
        user("gopher", RepoPermission::Maintain),
        user("bors", RepoPermission::Triage),
        user("ferris", RepoPermission::Triage),
    ];
    assert_eq!(
        sync().diff_permissions(&wanted_repo(), &teams, &users),
        vec![
            team_change("compiler", RepoPermissionDiff::Create(RepoPermission::Write)),
            team_change(
                "infra",
                RepoPermissionDiff::Update(RepoPermission::Write, RepoPermission::Admin)
            ),
            user_change(
                "bors",
                RepoPermissionDiff::Update(RepoPermission::Triage, RepoPermission::Write)
            ),
            user_change("rust-highfive", RepoPermissionDiff::Create(RepoPermission::Write)),
            team_change("stray", RepoPermissionDiff::Delete(RepoPermission::Admin)),
            user_change("gopher", RepoPermissionDiff::Delete(RepoPermission::Maintain)),
        ]
    );
}

#[test]
fn a_team_that_is_named_like_a_bot_keeps_its_access() {
    let mut teams = settled_teams();
    teams.push(team("bors", RepoPermission::Write));
    teams.push(team("rustbot", RepoPermission::Write));
    assert_eq!(
        sync().diff_permissions(&wanted_repo(), &teams, &settled_users()),
        vec![team_change("rustbot", RepoPermissionDiff::Delete(RepoPermission::Write))]
    );
}

#[test]
fn a_team_that_is_wanted_twice_is_given_access_the_second_time() {
    let mut repo = wanted_repo();
    repo.teams.push(team_data::RepoTeam {
        name: "compiler".to_string(),
        permission: team_data::RepoPermission::Maintain,
    });
    assert_eq!(
        sync().diff_permissions(&repo, &settled_teams(), &settled_users()),
        vec![team_change("compiler", RepoPermissionDiff::Create(RepoPermission::Maintain))]
    );
}

#[test]
fn the_last_entry_of_a_listed_name_counts() {
    let mut teams = vec![team("compiler", RepoPermission::Triage)];
    teams.extend(settled_teams());
    teams.push(team("stray", RepoPermission::Write));
    teams.push(team("stray", RepoPermission::Triage));
    assert_eq!(
        sync().diff_permissions(&wanted_repo(), &teams, &settled_users()),
        vec![team_change("stray", RepoPermissionDiff::Delete(RepoPermission::Triage))]
    );
}

#[test]
fn branches_are_created_protected_updated_and_unprotected() {
    let mut repo = wanted_repo();
    repo.branches.push(branch("stable"));
    repo.branches.push(branch("perf"));
    let mut weaker = branch_protection(&repo, &repo.branches[2]);
    weaker.required_status_checks.checks.clear();
    let states = vec![
        BranchState::Present { protection: None },
        BranchState::Missing { head: "abc".to_string() },
        BranchState::Present { protection: Some(weaker.clone()) },
        BranchState::Present { protection: Some(branch_protection(&repo, &repo.branches[3])) },
    ];
    let protected =
        vec!["stable".to_string(), "old".to_string(), "perf".to_string(), "old".to_string()];
    let wanted = |index: usize| branch_protection(&repo, &repo.branches[index]);
    assert_eq!(
        sync().diff_branch_protections(&repo, &states, &protected),
        vec![
            BranchProtectionDiff {
                name: "master".to_string(),
                operation: BranchProtectionDiffOperation::Create(wanted(0)),
            },
            BranchProtectionDiff {
                name: "beta".to_string(),
                operation: BranchProtectionDiffOperation::CreateWithBranch(
                    wanted(1),
                    "abc".to_string()
                ),
            },
            BranchProtectionDiff {
                name: "stable".to_string(),
                operation: BranchProtectionDiffOperation::Update(weaker, wanted(2)),
            },
            BranchProtectionDiff {
                name: "old".to_string(),
                operation: BranchProtectionDiffOperation::Delete,
            },
        ]
    );
}

#[test]
fn protections_in_sync_need_no_change() {
    let repo = wanted_repo();
    let protected = vec!["beta".to_string(), "master".to_string()];
    let diffs = sync().diff_branch_protections(&repo, &settled_branches(&repo), &protected);
    assert_eq!(diffs, Vec::new());
}

#[test]
fn a_branch_that_is_named_twice_can_be_in_sync() {
    let mut repo = wanted_repo();
    repo.branches.push(branch("master"));
    let protected = vec!["beta".to_string(), "master".to_string()];
    let states = settled_branches(&repo);
    assert_eq!(sync().diff_branch_protections(&repo, &states, &protected), Vec::new());
    repo.branches[2].dismiss_stale_review = true;
    assert_eq!(sync().diff_branch_protections(&repo, &states, &protected).len(), 1);
}

#[test]
fn a_missing_repository_is_created_with_everything() {
    let repo = wanted_repo();
    let create = match sync().diff_repo(&repo, &None) {
        RepoDiff::Create(create) => create,
        other => panic!("not a creation: {other:?}"),
    };
    assert_eq!(create.org, "rust-lang");
    assert_eq!(create.name, "rust");
    assert_eq!(create.description, "The compiler");
    assert_eq!(
        create.permissions,
        vec![
            (RepoCollaborator::Team("compiler".to_string()), RepoPermission::Write),
            (RepoCollaborator::Team("infra".to_string()), RepoPermission::Admin),
            (RepoCollaborator::User("bors".to_string()), RepoPermission::Write),
            (RepoCollaborator::User("rust-highfive".to_string()), RepoPermission::Write),
            (RepoCollaborator::User("ferris".to_string()), RepoPermission::Triage),
        ]
    );
    assert_eq!(
        create.branch_protections,
        vec![
            ("master".to_string(), branch_protection(&repo, &repo.branches[0])),
            ("beta".to_string(), branch_protection(&repo, &repo.branches[1])),
        ]
    );
}

#[test]
fn a_repository_in_sync_is_left_alone() {
    let repo = wanted_repo();
    let actual = ActualRepo {
        repo: actual_repo(Some("The compiler")),
        teams: settled_teams(),
        collaborators: settled_users(),
        protected: vec!["master".to_string(), "beta".to_string()],
        branches: settled_branches(&repo),
    };
    match sync().diff_repo(&repo, &Some(actual)) {
        RepoDiff::Update(update) => {
            assert!(update.noop());
            assert!(update.apply().is_empty());
            assert!(update.log().is_empty());
        }
        other => panic!("not an update: {other:?}"),
    }
}

#[test]
fn the_name_and_the_description_of_a_repository_are_compared() {
    let repo = wanted_repo();
    let actual = |name: &str, description: Option<&str>| {
        let mut there = actual_repo(description);
        there.name = name.to_string();
        ActualRepo {
            repo: there,
            teams: settled_teams(),
            collaborators: settled_users(),
            protected: Vec::new(),
            branches: settled_branches(&repo),
        }
    };
    let update = |actual: ActualRepo| match sync().diff_repo(&repo, &Some(actual)) {
        RepoDiff::Update(update) => update,
        other => panic!("not an update: {other:?}"),
    };
    let renamed = update(actual("Rust", Some("The compiler")));
    assert_eq!(renamed.name, "Rust");
    assert_eq!(renamed.name_diff, Some("rust".to_string()));
    assert_eq!(renamed.description_diff, None);
    assert!(!renamed.noop());
    assert!(renamed.apply().is_empty());
    let described = update(actual("rust", Some("Old")));
    assert_eq!(
        described.description_diff,
        Some((Some("Old".to_string()), "The compiler".to_string()))
    );
    let bare = update(actual("rust", None));
    assert_eq!(bare.description_diff, Some((None, "The compiler".to_string())));
    assert!(!bare.noop());
}
