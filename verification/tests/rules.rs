use std::collections::HashMap;

use team_sync::api::{
    BranchProtection, Check, EnforceAdmins, PullRequestReviews, RepoPermission,
    RequiredStatusChecks, Restrictions, TeamPrivacy, TeamRole, UserRestriction,
};
use team_sync::rules::{
    bot_name, branch_protection, convert_permission, is_bot_team, DEFAULT_DESCRIPTION,
    DEFAULT_PRIVACY,
};
use team_sync::sync::SyncGitHub;
use team_sync::team_data::{self, Bot, Branch, GitHubTeam, Repo, Team, TeamGitHub};

fn repo(bots: Vec<Bot>) -> Repo {
    Repo {
        org: "rust-lang".to_string(),
        name: "rust".to_string(),
        description: "The compiler".to_string(),
        bots,
        teams: Vec::new(),
        members: Vec::new(),
        branches: Vec::new(),
    }
}

fn branch() -> Branch {
    Branch {
        name: "master".to_string(),
        ci_checks: vec!["test".to_string(), "lint".to_string()],
        dismiss_stale_review: true,
    }
}

fn github_team(org: &str, name: &str, members: Vec<usize>) -> GitHubTeam {
    GitHubTeam { org: org.to_string(), name: name.to_string(), members }
}

fn teams() -> Vec<Team> {
    vec![
        Team {
            github: Some(TeamGitHub {
                teams: vec![
                    github_team("rust-lang", "core", vec![3, 1, 3]),
                    github_team("rust-embedded", "core", vec![1, 4]),
                ],
            }),
        },
        Team { github: None },
        Team {
            github: Some(TeamGitHub {
                teams: vec![github_team("rust-lang", "infra", vec![5, 4])],
            }),
        },
    ]
}

#[test]
fn managed_teams_are_closed_and_say_so() {
    assert_eq!(DEFAULT_DESCRIPTION, "Managed by the rust-lang/team repository.");
    assert_eq!(DEFAULT_PRIVACY, TeamPrivacy::Closed);
}

#[test]
fn every_bot_has_its_account() {
    assert_eq!(bot_name(&Bot::Bors), "bors");
    assert_eq!(bot_name(&Bot::Highfive), "rust-highfive");
    assert_eq!(bot_name(&Bot::RustTimer), "rust-timer");
    assert_eq!(bot_name(&Bot::Rustbot), "rustbot");
}

#[test]
fn permissions_keep_their_names() {
    assert_eq!(convert_permission(&team_data::RepoPermission::Write), RepoPermission::Write);
    assert_eq!(convert_permission(&team_data::RepoPermission::Admin), RepoPermission::Admin);
    assert_eq!(
        convert_permission(&team_data::RepoPermission::Maintain),
        RepoPermission::Maintain
    );
    assert_eq!(convert_permission(&team_data::RepoPermission::Triage), RepoPermission::Triage);
}

#[test]
fn the_bots_teams_are_known() {
    for name in ["bors", "highfive", "rfcbot", "bots"] {
        assert!(is_bot_team(&name.to_string()));
    }
    for name in ["rust-highfive", "Bors", "bot", ""] {
        assert!(!is_bot_team(&name.to_string()));
    }
}

#[test]
fn a_branch_without_bors_needs_a_review() {
    let protection = branch_protection(&repo(vec![Bot::Rustbot]), &branch());
    assert_eq!(
        protection,
        BranchProtection {
            required_status_checks: RequiredStatusChecks {
                strict: false,
                checks: vec![
                    Check { context: "test".to_string() },
                    Check { context: "lint".to_string() },
                ],
            },
            enforce_admins: EnforceAdmins::Bool(true),
            required_pull_request_reviews: PullRequestReviews {
                dismissal_restrictions: Vec::new(),
                dismiss_stale_reviews: true,
                required_approving_review_count: 1,
            },
            restrictions: Restrictions { users: Vec::new(), teams: Vec::new() },
        }
    );
}

#[test]
fn with_bors_no_review_is_needed_and_only_bors_pushes() {
    let protection = branch_protection(&repo(vec![Bot::Rustbot, Bot::Bors]), &branch());
    assert_eq!(protection.required_pull_request_reviews.required_approving_review_count, 0);
    assert_eq!(protection.restrictions.users.len(), 1);
    let UserRestriction::Name(name) = &protection.restrictions.users[0];
    assert_eq!(name, "bors");
    assert!(protection.restrictions.teams.is_empty());
}

#[test]
fn protections_differ_in_every_field() {
    let wanted = branch_protection(&repo(vec![Bot::Bors]), &branch());
    assert_eq!(wanted.clone(), wanted);
    let mut other = wanted.clone();
    other.required_status_checks.strict = true;
    assert_ne!(other, wanted);
    let mut other = wanted.clone();
    other.required_status_checks.checks.pop();
    assert_ne!(other, wanted);
    let mut other = wanted.clone();
    other.required_status_checks.checks[1].context = "format".to_string();
    assert_ne!(other, wanted);
    let mut other = wanted.clone();
    other.enforce_admins = EnforceAdmins::Bool(false);
    assert_ne!(other, wanted);
    let mut other = wanted.clone();
    other.required_pull_request_reviews.dismissal_restrictions.push("x".to_string());
    assert_ne!(other, wanted);
    let mut other = wanted.clone();
    other.required_pull_request_reviews.dismiss_stale_reviews = false;
    assert_ne!(other, wanted);
    let mut other = wanted.clone();
    other.required_pull_request_reviews.required_approving_review_count = 2;
    assert_ne!(other, wanted);
    let mut other = wanted.clone();
    other.restrictions.users[0] = UserRestriction::Name("homu".to_string());
    assert_ne!(other, wanted);
    let mut other = wanted.clone();
    other.restrictions.teams.push("core".to_string());
    assert_ne!(other, wanted);
}

#[test]
fn github_teams_are_listed_in_order() {
    let flat = SyncGitHub::github_teams(&teams());
    let names: Vec<(&str, &str)> =
        flat.iter().map(|team| (team.org.as_str(), team.name.as_str())).collect();
    assert_eq!(
        names,
        vec![("rust-lang", "core"), ("rust-embedded", "core"), ("rust-lang", "infra")]
    );
    assert_eq!(flat[0].members, vec![3, 1, 3]);
}

#[test]
fn users_and_organizations_are_listed_once() {
    assert_eq!(SyncGitHub::users(&teams()), vec![3, 1, 4, 5]);
    assert_eq!(SyncGitHub::orgs(&teams()), vec!["rust-lang", "rust-embedded"]);
    assert!(SyncGitHub::users(&Vec::new()).is_empty());
    assert!(SyncGitHub::orgs(&vec![Team { github: None }]).is_empty());
}

#[test]
fn knowing_the_users_is_knowing_all_members() {
    let usernames: HashMap<usize, String> =
        SyncGitHub::users(&teams()).into_iter().map(|id| (id, format!("user{id}"))).collect();
    let owners = vec![Vec::new(), Vec::new()];
    let sync = SyncGitHub::new(teams(), Vec::new(), usernames, owners);
    for team in SyncGitHub::github_teams(&sync.teams) {
        assert!(sync.knows_members(&team));
    }
    assert!(!sync.knows_members(&github_team("rust-lang", "lang", vec![1, 9])));
    assert!(sync.knows_members(&github_team("rust-lang", "empty", Vec::new())));
}

#[test]
fn owners_are_held_for_the_organizations_of_the_teams() {
    let elsewhere = Repo { org: "elsewhere".to_string(), ..repo(Vec::new()) };
    let owners = vec![vec![1, 2], vec![4]];
    let sync = SyncGitHub::new(teams(), vec![elsewhere], HashMap::new(), owners.clone());
    let pairs =
        vec![("rust-lang".to_string(), vec![1, 2]), ("rust-embedded".to_string(), vec![4])];
    assert_eq!(sync.org_owners, pairs);
    assert_eq!(SyncGitHub::owners_by_org(&teams(), owners), pairs);
    assert_eq!(sync.expected_role(&"elsewhere".to_string(), 1), TeamRole::Member);
    assert!(SyncGitHub::owners_by_org(&Vec::new(), Vec::new()).is_empty());
}

#[test]
fn owners_maintain_the_teams_of_their_organization() {
    let owners = vec![vec![1, 2], vec![4]];
    let sync = SyncGitHub::new(teams(), Vec::new(), HashMap::new(), owners);
    let role = |org: &str, user: usize| sync.expected_role(&org.to_string(), user);
    assert_eq!(role("rust-lang", 1), TeamRole::Maintainer);
    assert_eq!(role("rust-lang", 2), TeamRole::Maintainer);
    assert_eq!(role("rust-lang", 4), TeamRole::Member);
    assert_eq!(role("rust-embedded", 4), TeamRole::Maintainer);
    assert_eq!(role("rust-embedded", 1), TeamRole::Member);
    assert_eq!(role("elsewhere", 1), TeamRole::Member);
}
