use std::collections::{BTreeMap, HashMap};

use team_sync::api::{
    self, BranchProtection, RepoPermission, RepoTeam, RepoUser, TeamMember, TeamPrivacy, TeamRole,
};
use team_sync::apply_run::ApplyRun;
use team_sync::call::{Reply, Request};
use team_sync::diff::{
    BranchProtectionDiffOperation, CreateRepoDiff, Diff, MemberDiff, RepoCollaborator, RepoDiff,
    TeamDiff,
};
use team_sync::log::Level;
use team_sync::rules::branch_protection;
use team_sync::sync::SyncGitHub;
use team_sync::team_data::{self, Bot, Branch, GitHubTeam, Repo, RepoMember, Team, TeamGitHub};

/// A repository of a GitHub that is kept in memory.
#[derive(Clone, PartialEq)]
struct StoredRepo {
    description: Option<String>,
    teams: BTreeMap<String, RepoPermission>,
    users: BTreeMap<String, RepoPermission>,
    heads: BTreeMap<String, String>,
    protections: BTreeMap<String, BranchProtection>,
}

/// A team of a GitHub that is kept in memory.
#[derive(Clone, PartialEq)]
struct StoredTeam {
    description: String,
    privacy: TeamPrivacy,
    members: BTreeMap<usize, TeamRole>,
}

/// A GitHub that is kept in memory.
#[derive(Clone)]
struct Stored {
    users: BTreeMap<usize, String>,
    teams: BTreeMap<(String, String), StoredTeam>,
    repos: BTreeMap<(String, String), StoredRepo>,
    calls: Vec<Request>,
}

fn key(org: &str, name: &str) -> (String, String) {
    (org.to_string(), name.to_string())
}

impl Stored {
    fn id(&self, user: &str) -> usize {
        *self.users.iter().find(|(_, name)| name.as_str() == user).unwrap().0
    }

    fn repo(&mut self, org: &str, name: &str) -> &mut StoredRepo {
        self.repos.get_mut(&key(org, name)).unwrap()
    }

    fn call(&mut self, request: Request) -> Reply {
        self.calls.push(request.clone());
        match request {
            Request::OrgTeams { org } => Reply::OrgTeams(
                self.teams
                    .keys()
                    .filter(|(of, _)| *of == org)
                    .map(|(_, name)| name.clone())
                    .collect(),
            ),
            Request::Team { org, name } => {
                Reply::Team(self.teams.get(&key(&org, &name)).map(|team| api::Team {
                    name: name.clone(),
                    description: team.description.clone(),
                    privacy: team.privacy,
                }))
            }
            Request::TeamMemberships { org, of_team } => Reply::TeamMemberships(
                self.teams[&key(&org, &of_team.name)]
                    .members
                    .iter()
                    .map(|(id, role)| {
                        (*id, TeamMember { username: self.users[id].clone(), role: *role })
                    })
                    .collect(),
            ),
            Request::Repo { org, name } => {
                Reply::Repo(self.repos.get(&key(&org, &name)).map(|repo| api::Repo {
                    org: org.clone(),
                    name: name.clone(),
                    description: repo.description.clone(),
                    default_branch: "master".to_string(),
                }))
            }
            Request::RepoTeams { org, repo } => Reply::RepoTeams(
                self.repo(&org, &repo)
                    .teams
                    .iter()
                    .map(|(name, permission)| RepoTeam {
                        name: name.clone(),
                        permission: *permission,
                    })
                    .collect(),
            ),
            Request::RepoCollaborators { org, repo } => Reply::RepoCollaborators(
                self.repo(&org, &repo)
                    .users
                    .iter()
                    .map(|(name, permission)| RepoUser {
                        name: name.clone(),
                        permission: *permission,
                    })
                    .collect(),
            ),
            Request::ProtectedBranches { org, repo } => Reply::ProtectedBranches(
                self.repo(&org, &repo).protections.keys().cloned().collect(),
            ),
            Request::Branch { org, repo, branch } => {
                Reply::Branch(self.repo(&org, &repo).heads.get(&branch).cloned())
            }
            Request::BranchProtection { org, repo, branch } => {
                Reply::BranchProtection(self.repo(&org, &repo).protections.get(&branch).cloned())
            }
            Request::CreateTeam { org, name, description, privacy } => {
                let team = StoredTeam { description, privacy, members: BTreeMap::new() };
                self.teams.insert((org, name), team);
                Reply::Done
            }
            Request::EditTeam { org, name, new_name, new_description, new_privacy } => {
                let mut team = self.teams.remove(&key(&org, &name)).unwrap();
                if let Some(description) = new_description {
                    team.description = description;
                }
                if let Some(privacy) = new_privacy {
                    team.privacy = privacy;
                }
                self.teams.insert((org, new_name.unwrap_or(name)), team);
                Reply::Done
            }
            Request::DeleteTeam { org, name } => {
                self.teams.remove(&(org, name));
                Reply::Done
            }
            Request::SetTeamMembership { org, team, user, role } => {
                let id = self.id(&user);
                self.teams.get_mut(&(org, team)).unwrap().members.insert(id, role);
                Reply::Done
            }
            Request::RemoveTeamMembership { org, team, user } => {
                let id = self.id(&user);
                self.teams.get_mut(&(org, team)).unwrap().members.remove(&id);
                Reply::Done
            }
            Request::CreateRepo { org, name, description } => {
                let repo = StoredRepo {
                    description: Some(description.clone()),
                    teams: BTreeMap::new(),
                    users: BTreeMap::new(),
                    heads: [("master".to_string(), "first".to_string())].into_iter().collect(),
                    protections: BTreeMap::new(),
                };
                self.repos.insert(key(&org, &name), repo);
                Reply::CreatedRepo(api::Repo {
                    org,
                    name,
                    description: Some(description),
                    default_branch: "master".to_string(),
                })
            }
            Request::EditRepo { org, name, description } => {
                self.repo(&org, &name).description = Some(description);
                Reply::Done
            }
            Request::UpdateTeamRepoPermissions { org, repo, team, permission } => {
                self.repo(&org, &repo).teams.insert(team, permission);
                Reply::Done
            }
            Request::UpdateUserRepoPermissions { org, repo, user, permission } => {
                self.repo(&org, &repo).users.insert(user, permission);
                Reply::Done
            }
            Request::RemoveTeamFromRepo { org, repo, team } => {
                self.repo(&org, &repo).teams.remove(&team);
                Reply::Done
            }
            Request::RemoveCollaboratorFromRepo { org, repo, user } => {
                self.repo(&org, &repo).users.remove(&user);
                Reply::Done
            }
            Request::CreateBranch { org, repo, branch, commit } => {
                self.repo(&org, &repo).heads.insert(branch, commit);
                Reply::Done
            }
            Request::UpdateBranchProtection { org, repo, branch, protection } => {
                let repo = self.repo(&org, &repo);
                let there = repo.heads.contains_key(&branch);
                if there {
                    repo.protections.insert(branch, protection);
                }
                Reply::ProtectionUpdated(there)
            }
            Request::DeleteBranchProtection { org, repo, branch } => {
                self.repo(&org, &repo).protections.remove(&branch);
                Reply::Done
            }
        }
    }

    fn diff(&mut self, sync: &SyncGitHub) -> Diff {
        let mut run = sync.diff_all();
        while let Some(request) = run.request() {
            let reply = self.call(request);
            assert!(run.accepts(&reply));
            run.advance(reply);
        }
        run.finish().unwrap()
    }

    fn apply(&mut self, diff: &Diff) {
        let mut run = diff.apply();
        while let Some(request) = run.request() {
            let reply = self.call(request);
            assert!(run.accepts(&reply));
            run.advance(reply);
        }
    }

    fn synchronize(&mut self, sync: &SyncGitHub) {
        let mut run = sync.synchronize_all();
        while let Some(request) = run.request() {
            let reply = self.call(request);
            assert!(run.accepts(&reply));
            run.advance(reply);
        }
    }
}

fn branch(name: &str) -> Branch {
    Branch {
        name: name.to_string(),
        ci_checks: vec!["ci".to_string()],
        dismiss_stale_review: false,
    }
}

fn wanted_repo(name: &str) -> Repo {
    Repo {
        org: "rust-lang".to_string(),
        name: name.to_string(),
        description: "Wanted".to_string(),
        bots: vec![Bot::Bors],
        teams: vec![team_data::RepoTeam {
            name: "infra".to_string(),
            permission: team_data::RepoPermission::Admin,
        }],
        members: vec![RepoMember {
            name: "ferris".to_string(),
            permission: team_data::RepoPermission::Maintain,
        }],
        branches: vec![branch("master"), branch("beta"), branch("stable")],
    }
}

fn wanted() -> SyncGitHub {
    let team = |org: &str, name: &str, members: Vec<usize>| GitHubTeam {
        org: org.to_string(),
        name: name.to_string(),
        members,
    };
    let teams = vec![
        Team {
            github: Some(TeamGitHub {
                teams: vec![
                    team("rust-lang", "core", vec![1, 2]),
                    team("rust-embedded", "core", vec![3]),
                ],
            }),
        },
        Team { github: Some(TeamGitHub { teams: vec![team("rust-lang", "infra", vec![2, 3])] }) },
    ];
    let usernames: HashMap<usize, String> = SyncGitHub::users(&teams)
        .into_iter()
        .map(|id| (id, stored().users[&id].clone()))
        .collect();
    let owners = vec![vec![2], vec![9]];
    SyncGitHub::new(teams, vec![wanted_repo("rust"), wanted_repo("new")], usernames, owners)
}

fn stored() -> Stored {
    let users = [(1, "ferris"), (2, "corro"), (3, "gopher"), (4, "ghost")];
    let core = StoredTeam {
        description: "Old".to_string(),
        privacy: TeamPrivacy::Secret,
        members: [(2, TeamRole::Member), (4, TeamRole::Member)].into_iter().collect(),
    };
    let rust = StoredRepo {
        description: None,
        teams: [
            ("stray".to_string(), RepoPermission::Write),
            ("infra".to_string(), RepoPermission::Triage),
            ("bors".to_string(), RepoPermission::Write),
        ]
        .into_iter()
        .collect(),
        users: [
            ("ghost".to_string(), RepoPermission::Admin),
            ("ferris".to_string(), RepoPermission::Maintain),
        ]
        .into_iter()
        .collect(),
        heads: [
            ("master".to_string(), "abc".to_string()),
            ("old".to_string(), "def".to_string()),
        ]
        .into_iter()
        .collect(),
        protections: [(
            "old".to_string(),
            branch_protection(&wanted_repo("rust"), &branch("old")),
        )]
        .into_iter()
        .collect(),
    };
    Stored {
        users: users.into_iter().map(|(id, name)| (id, name.to_string())).collect(),
        teams: [
            (key("rust-lang", "core"), core.clone()),
            (key("rust-lang", "bots"), core.clone()),
            (key("rust-lang", "forgotten"), core.clone()),
            (key("rust-embedded", "forgotten"), core),
        ]
        .into_iter()
        .collect(),
        repos: [(key("rust-lang", "rust"), rust)].into_iter().collect(),
        calls: Vec::new(),
    }
}

fn count(calls: &Vec<Request>, wanted: &Request) -> usize {
    calls.iter().filter(|call| *call == wanted).count()
}

fn is_noop(diff: &Diff) -> bool {
    diff.team_diffs.iter().all(|diff| matches!(diff, TeamDiff::Edit(edit) if edit.noop()))
        && diff
            .repo_diffs
            .iter()
            .all(|diff| matches!(diff, RepoDiff::Update(update) if update.noop()))
}

fn check_repo(repo: &StoredRepo, head: &str) {
    let wanted = wanted_repo("rust");
    assert_eq!(repo.description, Some("Wanted".to_string()));
    assert_eq!(repo.teams.get("infra"), Some(&RepoPermission::Admin));
    assert!(repo.teams.keys().all(|team| team == "infra" || team == "bors"));
    let users: Vec<(&str, RepoPermission)> =
        repo.users.iter().map(|(name, permission)| (name.as_str(), *permission)).collect();
    assert_eq!(
        users,
        vec![("bors", RepoPermission::Write), ("ferris", RepoPermission::Maintain)]
    );
    let names: Vec<&str> = repo.protections.keys().map(|name| name.as_str()).collect();
    assert_eq!(names, vec!["beta", "master", "stable"]);
    for branch in &wanted.branches {
        assert_eq!(repo.protections[&branch.name], branch_protection(&wanted, branch));
        assert_eq!(repo.heads[&branch.name], head);
    }
}

#[test]
fn a_comparison_only_reads() {
    let mut github = stored();
    github.diff(&wanted());
    assert!(github.calls.iter().all(|call| matches!(
        call,
        Request::OrgTeams { .. }
            | Request::Team { .. }
            | Request::TeamMemberships { .. }
            | Request::Repo { .. }
            | Request::RepoTeams { .. }
            | Request::RepoCollaborators { .. }
            | Request::ProtectedBranches { .. }
            | Request::Branch { .. }
            | Request::BranchProtection { .. }
    )));
}

#[test]
fn a_comparison_finds_the_difference() {
    let sync = wanted();
    let diff = stored().diff(&sync);
    assert_eq!(diff.team_diffs.len(), 4);
    match &diff.team_diffs[0] {
        TeamDiff::Edit(edit) => {
            assert_eq!(edit.name, "core");
            assert_eq!(
                edit.member_diffs,
                vec![
                    ("ferris".to_string(), MemberDiff::Create(TeamRole::Member)),
                    (
                        "corro".to_string(),
                        MemberDiff::ChangeRole((TeamRole::Member, TeamRole::Maintainer))
                    ),
                    ("ghost".to_string(), MemberDiff::Delete),
                ]
            );
        }
        other => panic!("not an edit: {other:?}"),
    }
    match &diff.team_diffs[1] {
        TeamDiff::Create(create) => {
            assert_eq!(create.org, "rust-embedded");
            assert_eq!(create.members, vec![("gopher".to_string(), TeamRole::Member)]);
        }
        other => panic!("not a creation: {other:?}"),
    }
    match &diff.team_diffs[3] {
        TeamDiff::Delete(delete) => {
            assert_eq!((delete.org.as_str(), delete.name.as_str()), ("rust-lang", "forgotten"));
        }
        other => panic!("not a deletion: {other:?}"),
    }
    assert_eq!(diff.repo_diffs.len(), 2);
    match &diff.repo_diffs[0] {
        RepoDiff::Update(update) => {
            assert_eq!(update.permission_diffs.len(), 4);
            let operations: Vec<&BranchProtectionDiffOperation> = update
                .branch_protection_diffs
                .iter()
                .map(|diff| &diff.operation)
                .collect();
            assert!(matches!(operations[0], BranchProtectionDiffOperation::Create(_)));
            for index in [1, 2] {
                match operations[index] {
                    BranchProtectionDiffOperation::CreateWithBranch(_, head) => {
                        assert_eq!(head, "abc")
                    }
                    other => panic!("no branch is created: {other:?}"),
                }
            }
            assert!(matches!(operations[3], BranchProtectionDiffOperation::Delete));
        }
        other => panic!("not an update: {other:?}"),
    }
    assert!(matches!(&diff.repo_diffs[1], RepoDiff::Create(_)));
}

#[test]
fn organizations_are_listed_once_and_heads_asked_for_once() {
    let mut github = stored();
    github.diff(&wanted());
    for org in ["rust-lang", "rust-embedded"] {
        assert_eq!(count(&github.calls, &Request::OrgTeams { org: org.to_string() }), 1);
    }
    // Once as a branch that is to be protected, once as the main branch.
    let master = Request::Branch {
        org: "rust-lang".to_string(),
        repo: "rust".to_string(),
        branch: "master".to_string(),
    };
    assert_eq!(count(&github.calls, &master), 2);
}

#[test]
fn carrying_out_a_diff_leads_to_the_wanted_state() {
    let sync = wanted();
    let mut github = stored();
    let diff = github.diff(&sync);
    assert!(!is_noop(&diff));
    github.apply(&diff);
    check_repo(&github.repos[&key("rust-lang", "rust")], "abc");
    check_repo(&github.repos[&key("rust-lang", "new")], "first");
    let core = &github.teams[&key("rust-lang", "core")];
    assert_eq!(core.privacy, TeamPrivacy::Closed);
    assert_eq!(core.description, "Managed by the rust-lang/team repository.");
    assert_eq!(
        core.members,
        [(1, TeamRole::Member), (2, TeamRole::Maintainer)].into_iter().collect()
    );
    assert!(github.teams.contains_key(&key("rust-lang", "bots")));
    assert!(!github.teams.contains_key(&key("rust-lang", "forgotten")));
    assert!(github.teams.contains_key(&key("rust-embedded", "forgotten")));
    let again = github.diff(&sync);
    assert!(is_noop(&again));
}

#[test]
fn what_is_not_wanted_otherwise_stays_as_it_was() {
    let mut sync = wanted();
    sync.repos[1].org = "rust-embedded".to_string();
    sync.repos[1].name = "rust".to_string();
    let mut github = stored();
    let other = github.repos[&key("rust-lang", "rust")].clone();
    github.repos.insert(key("rust-lang", "rust.vim"), other.clone());
    github.repos.insert(key("elsewhere", "rust"), other.clone());
    let mut synchronized = github.clone();
    let before = github.clone();
    let diff = github.diff(&sync);
    github.apply(&diff);
    synchronized.synchronize(&sync);
    assert!(synchronized.teams == before.teams);
    for after in [&github, &synchronized] {
        assert!(after.repos[&key("rust-lang", "rust.vim")] == other);
        assert!(after.repos[&key("elsewhere", "rust")] == other);
        assert_eq!(after.repos.len(), 4);
        check_repo(&after.repos[&key("rust-lang", "rust")], "abc");
        check_repo(&after.repos[&key("rust-embedded", "rust")], "first");
    }
    for (address, team) in &before.teams {
        if address.1 == "bots" || address.0 == "rust-embedded" {
            assert!(github.teams[address] == *team);
        }
    }
}

#[test]
fn a_diff_that_changes_nothing_is_silent_and_makes_no_real_call() {
    let sync = wanted();
    let mut github = stored();
    let diff = github.diff(&sync);
    github.apply(&diff);
    let again = github.diff(&sync);
    let lines: Vec<String> = again.log().into_iter().map(|line| line.message).collect();
    assert_eq!(lines, vec!["💻 Team Diffs:", "💻 Repo Diffs:"]);
    github.calls.clear();
    github.apply(&again);
    let idle = |org: &str, name: &str| Request::EditTeam {
        org: org.to_string(),
        name: name.to_string(),
        new_name: None,
        new_description: None,
        new_privacy: None,
    };
    assert_eq!(
        github.calls,
        vec![
            idle("rust-lang", "core"),
            idle("rust-embedded", "core"),
            idle("rust-lang", "infra"),
        ]
    );
}

#[test]
fn synchronizing_leads_to_the_same_repositories() {
    let sync = wanted();
    let mut synchronized = stored();
    synchronized.synchronize(&sync);
    check_repo(&synchronized.repos[&key("rust-lang", "rust")], "abc");
    check_repo(&synchronized.repos[&key("rust-lang", "new")], "first");
    let mut applied = stored();
    let diff = applied.diff(&sync);
    applied.apply(&diff);
    for name in ["rust", "new"] {
        let left = &synchronized.repos[&key("rust-lang", name)];
        let right = &applied.repos[&key("rust-lang", name)];
        assert_eq!(left.teams, right.teams);
        assert_eq!(left.users, right.users);
        assert_eq!(left.heads, right.heads);
        assert!(left.protections == right.protections);
    }
}

#[test]
fn synchronizing_makes_its_calls_in_order() {
    let mut sync = wanted();
    sync.repos.truncate(1);
    let mut github = stored();
    github.synchronize(&sync);
    let org = || "rust-lang".to_string();
    let repo = || "rust".to_string();
    let look = |name: &str| Request::Branch { org: org(), repo: repo(), branch: name.to_string() };
    let create = |name: &str| Request::CreateBranch {
        org: org(),
        repo: repo(),
        branch: name.to_string(),
        commit: "abc".to_string(),
    };
    let protect = |name: &str| Request::UpdateBranchProtection {
        org: org(),
        repo: repo(),
        branch: name.to_string(),
        protection: branch_protection(&wanted_repo("rust"), &branch(name)),
    };
    assert_eq!(
        github.calls,
        vec![
            Request::Repo { org: org(), name: repo() },
            Request::EditRepo { org: org(), name: repo(), description: "Wanted".to_string() },
            Request::RepoTeams { org: org(), repo: repo() },
            Request::RepoCollaborators { org: org(), repo: repo() },
            Request::UpdateTeamRepoPermissions {
                org: org(),
                repo: repo(),
                team: "infra".to_string(),
                permission: RepoPermission::Admin,
            },
            Request::UpdateUserRepoPermissions {
                org: org(),
                repo: repo(),
                user: "bors".to_string(),
                permission: RepoPermission::Write,
            },
            Request::UpdateUserRepoPermissions {
                org: org(),
                repo: repo(),
                user: "ferris".to_string(),
                permission: RepoPermission::Maintain,
            },
            Request::RemoveTeamFromRepo { org: org(), repo: repo(), team: "stray".to_string() },
            Request::RemoveCollaboratorFromRepo {
                org: org(),
                repo: repo(),
                user: "ghost".to_string(),
            },
            Request::ProtectedBranches { org: org(), repo: repo() },
            look("master"),
            protect("master"),
            look("beta"),
            look("master"),
            create("beta"),
            protect("beta"),
            look("stable"),
            create("stable"),
            protect("stable"),
            Request::DeleteBranchProtection {
                org: org(),
                repo: repo(),
                branch: "old".to_string(),
            },
        ]
    );
}

#[test]
fn without_a_main_branch_nothing_is_created() {
    let mut sync = wanted();
    sync.repos.truncate(1);
    let mut github = stored();
    github.repo("rust-lang", "rust").heads.clear();
    github.repo("rust-lang", "rust").protections.clear();
    github.synchronize(&sync);
    let repo = &github.repos[&key("rust-lang", "rust")];
    assert!(repo.heads.is_empty());
    assert!(repo.protections.is_empty());
    assert!(!github.calls.iter().any(|call| matches!(call, Request::CreateBranch { .. })));
    let set = github
        .calls
        .iter()
        .filter(|call| matches!(call, Request::UpdateBranchProtection { .. }))
        .count();
    assert_eq!(set, 3);
    // Once as a branch that is to be protected, once as the main branch.
    let master = Request::Branch {
        org: "rust-lang".to_string(),
        repo: "rust".to_string(),
        branch: "master".to_string(),
    };
    assert_eq!(count(&github.calls, &master), 2);
}

#[test]
fn synchronizing_tells_closely_what_it_does() {
    let mut sync = wanted();
    sync.repos.truncate(1);
    let mut github = stored();
    github.repo("rust-lang", "rust").description = Some("Wanted".to_string());
    github.repo("rust-lang", "rust").heads.remove("master");
    let mut run = sync.synchronize_all();
    let mut told = Vec::new();
    while let Some(request) = run.request() {
        told.extend(run.log_call());
        let reply = github.call(request);
        told.extend(run.log_reply(&reply));
        run.advance(reply);
    }
    assert!(run.log_call().is_empty());
    assert!(told.iter().all(|line| line.level == Level::Debug));
    let refused = |name: &str| {
        format!(
            "Did not update branch protection for '{name}' on 'rust-lang/rust' as the branch does \
             not exist."
        )
    };
    let messages: Vec<String> = told.into_iter().map(|line| line.message).collect();
    assert_eq!(
        messages,
        vec![
            "synchronizing repo rust-lang/rust".to_string(),
            "repo already exists...".to_string(),
            "repo is in synced state".to_string(),
            refused("master"),
            refused("beta"),
            refused("stable"),
            "Deleting branch protection for 'old' on 'rust-lang/rust' as the protection is not in \
             the team repo"
                .to_string(),
        ]
    );
}

#[test]
fn an_edited_repository_is_not_told_to_be_synced() {
    let mut sync = wanted();
    sync.repos.truncate(1);
    let run = sync.synchronize_all();
    let found = Reply::Repo(Some(api::Repo {
        org: "rust-lang".to_string(),
        name: "rust".to_string(),
        description: Some("Old".to_string()),
        default_branch: "master".to_string(),
    }));
    let told: Vec<String> = run.log_reply(&found).into_iter().map(|line| line.message).collect();
    assert_eq!(told, vec!["repo already exists..."]);
    assert!(run.log_reply(&Reply::Repo(None)).is_empty());
}

#[test]
fn a_comparison_needs_the_head_of_the_main_branch() {
    let mut sync = wanted();
    sync.teams.clear();
    sync.repos.truncate(1);
    let mut github = stored();
    github.repo("rust-lang", "rust").heads.clear();
    let mut run = sync.diff_all();
    let mut answers = 0;
    loop {
        let request = run.request().unwrap();
        let reply = github.call(request);
        if !run.accepts(&reply) {
            assert!(matches!(reply, Reply::Branch(None)));
            break;
        }
        run.advance(reply);
        answers += 1;
    }
    // The repository, the teams, the users, the protected branches and the first branch.
    assert_eq!(answers, 5);
    assert!(run.finish().is_none());
}

#[test]
fn a_comparison_needs_the_names_of_the_members() {
    let mut sync = wanted();
    sync.usernames_cache.remove(&1);
    let mut github = stored();
    let mut run = sync.diff_all();
    let listed = github.call(run.request().unwrap());
    run.advance(listed);
    assert!(!run.accepts(&Reply::Team(None)));
    let found = github.call(run.request().unwrap());
    assert!(run.accepts(&found));
    run.advance(found);
    let members = github.call(run.request().unwrap());
    assert!(!run.accepts(&members));
}

#[test]
fn replies_of_another_kind_are_not_accepted() {
    let sync = wanted();
    let run = sync.diff_all();
    assert_eq!(run.request(), Some(Request::OrgTeams { org: "rust-lang".to_string() }));
    assert!(run.accepts(&Reply::OrgTeams(Vec::new())));
    assert!(!run.accepts(&Reply::ProtectedBranches(Vec::new())));
    assert!(!run.accepts(&Reply::Done));
    let run = sync.synchronize_all();
    assert!(run.accepts(&Reply::Repo(None)));
    assert!(!run.accepts(&Reply::Done));
}

#[test]
fn nothing_wanted_is_nothing_to_do() {
    let sync = SyncGitHub::new(Vec::new(), Vec::new(), HashMap::new(), Vec::new());
    let run = sync.diff_all();
    assert_eq!(run.request(), None);
    assert!(!run.accepts(&Reply::Done));
    let diff = run.finish().unwrap();
    assert_eq!(diff, Diff { team_diffs: Vec::new(), repo_diffs: Vec::new() });
    assert_eq!(diff.apply().request(), None);
    assert!(!diff.apply().accepts(&Reply::Done));
    assert_eq!(sync.synchronize_all().request(), None);
}

#[test]
fn a_comparison_ends_at_the_first_failed_call() {
    let sync = wanted();
    let mut whole = stored();
    whole.diff(&sync);
    for failing in 0..whole.calls.len() {
        let mut github = stored();
        let mut run = sync.diff_all();
        let mut result = Ok(());
        while let Some(request) = run.request() {
            let reply = github.call(request);
            let outcome = if github.calls.len() == failing + 1 { Err(failing) } else { Ok(reply) };
            result = run.resume(outcome);
        }
        assert_eq!(result, Err(failing));
        assert_eq!(github.calls, whole.calls[..failing + 1]);
        assert!(!run.accepts(&Reply::Done));
        assert!(run.finish().is_none());
    }
}

#[test]
fn a_synchronization_ends_at_the_first_failed_call() {
    let sync = wanted();
    let mut whole = stored();
    whole.synchronize(&sync);
    for failing in 0..whole.calls.len() {
        let mut github = stored();
        let mut run = sync.synchronize_all();
        let mut result = Ok(());
        while let Some(request) = run.request() {
            let reply = github.call(request);
            let outcome = if github.calls.len() == failing + 1 { Err(failing) } else { Ok(reply) };
            result = run.resume(outcome);
        }
        assert_eq!(result, Err(failing));
        assert_eq!(github.calls, whole.calls[..failing + 1]);
        assert!(run.log_call().is_empty());
        assert!(run.log_reply(&Reply::Done).is_empty());
    }
}

#[test]
fn carrying_out_a_diff_ends_at_the_first_failed_call() {
    let sync = wanted();
    let diff = stored().diff(&sync);
    let mut whole = stored();
    whole.apply(&diff);
    for failing in 0..whole.calls.len() {
        let mut github = stored();
        let mut run = diff.apply();
        let mut result = Ok(());
        while let Some(request) = run.request() {
            let reply = github.call(request);
            let outcome = if github.calls.len() == failing + 1 { Err(failing) } else { Ok(reply) };
            result = run.resume(outcome);
        }
        assert_eq!(result, Err(failing));
        assert_eq!(github.calls, whole.calls[..failing + 1]);
    }
}

#[test]
fn a_run_without_failures_goes_on_to_its_end() {
    let sync = wanted();
    let mut github = stored();
    let mut run = sync.diff_all();
    while let Some(request) = run.request() {
        let reply: Result<Reply, String> = Ok(github.call(request));
        assert_eq!(run.resume(reply), Ok(()));
    }
    assert_eq!(run.finish(), Some(stored().diff(&sync)));
}

fn creation() -> Diff {
    Diff {
        team_diffs: Vec::new(),
        repo_diffs: vec![RepoDiff::Create(CreateRepoDiff {
            org: "rust-lang".to_string(),
            name: "new".to_string(),
            description: "Wanted".to_string(),
            permissions: vec![(
                RepoCollaborator::User("ferris".to_string()),
                RepoPermission::Triage,
            )],
            branch_protections: vec![(
                "beta".to_string(),
                branch_protection(&wanted_repo("new"), &branch("beta")),
            )],
        })],
    }
}

fn created(run: &mut ApplyRun) {
    run.advance(Reply::CreatedRepo(api::Repo {
        org: "rust-lang".to_string(),
        name: "new".to_string(),
        description: None,
        default_branch: "trunk".to_string(),
    }));
}

#[test]
fn a_new_repository_gets_its_branches_at_the_head_of_its_default_branch() {
    let mut run = creation().apply();
    let org = || "rust-lang".to_string();
    let repo = || "new".to_string();
    assert_eq!(
        run.request(),
        Some(Request::CreateRepo { org: org(), name: repo(), description: "Wanted".to_string() })
    );
    created(&mut run);
    assert_eq!(
        run.request(),
        Some(Request::UpdateUserRepoPermissions {
            org: org(),
            repo: repo(),
            user: "ferris".to_string(),
            permission: RepoPermission::Triage,
        })
    );
    run.advance(Reply::Done);
    assert_eq!(
        run.request(),
        Some(Request::Branch { org: org(), repo: repo(), branch: "trunk".to_string() })
    );
    run.advance(Reply::Branch(Some("fedcba".to_string())));
    assert_eq!(
        run.request(),
        Some(Request::CreateBranch {
            org: org(),
            repo: repo(),
            branch: "beta".to_string(),
            commit: "fedcba".to_string(),
        })
    );
    run.advance(Reply::Done);
    assert!(matches!(run.request(), Some(Request::UpdateBranchProtection { .. })));
    run.advance(Reply::ProtectionUpdated(false));
    assert_eq!(run.request(), None);
}

#[test]
fn a_new_repository_needs_the_head_of_its_default_branch() {
    let mut run = creation().apply();
    created(&mut run);
    run.advance(Reply::Done);
    assert!(!run.accepts(&Reply::Branch(None)));
    assert!(run.accepts(&Reply::Branch(Some("abc".to_string()))));
}
