//! Laws about the rules: what each of them gives, for every input.
use vstd::prelude::*;

use crate::api::{EnforceAdmins, RepoPermission, UserRestrictionView};
use crate::rules::{
    bot_account, bot_team, granted, wanted_protection, DEFAULT_DESCRIPTION, DEFAULT_PRIVACY,
};
use crate::team_data::{self, Bot, BranchView, RepoView};

verus! {

/// Every bot has its account, and no two bots share one.
pub proof fn law_accounts(bot: Bot, other: Bot)
    ensures
        bot is Bors ==> bot_account(bot) == "bors"@,
        bot is Highfive ==> bot_account(bot) == "rust-highfive"@,
        bot is RustTimer ==> bot_account(bot) == "rust-timer"@,
        bot is Rustbot ==> bot_account(bot) == "rustbot"@,
        bot_account(bot) == bot_account(other) <==> bot == other,
{
    reveal_strlit("bors");
    reveal_strlit("rust-highfive");
    reveal_strlit("rust-timer");
    reveal_strlit("rustbot");
    assert("bors"@.len() == 4 && "rust-highfive"@.len() == 13 && "rust-timer"@.len() == 10
        && "rustbot"@.len() == 7);
    match bot {
        Bot::Bors => {},
        Bot::Highfive => {},
        Bot::RustTimer => {},
        Bot::Rustbot => {},
    }
}

/// Whether a level of access on GitHub goes by the same name as one of the team repository.
pub open spec fn same_level(
    actual: RepoPermission,
    permission: team_data::RepoPermission,
) -> bool {
    match permission {
        team_data::RepoPermission::Write => actual is Write,
        team_data::RepoPermission::Admin => actual is Admin,
        team_data::RepoPermission::Maintain => actual is Maintain,
        team_data::RepoPermission::Triage => actual is Triage,
    }
}

/// A level of access is granted under its own name, so that different levels stay different.
pub proof fn law_levels(permission: team_data::RepoPermission, other: team_data::RepoPermission)
    ensures
        same_level(granted(permission), permission),
        granted(permission) == granted(other) <==> permission == other,
{
}

/// Exactly four teams are the bots'.
pub proof fn law_bots_teams(name: Seq<char>)
    ensures
        bot_team(name) <==> seq!["bors"@, "highfive"@, "rfcbot"@, "bots"@].contains(name),
{
    let names = seq!["bors"@, "highfive"@, "rfcbot"@, "bots"@];
    assert(names[0] == "bors"@ && names[1] == "highfive"@ && names[2] == "rfcbot"@ && names[3]
        == "bots"@);
    if names.contains(name) {
        let i = choose|i: int| 0 <= i < names.len() && names[i] == name;
        assert(i == 0 || i == 1 || i == 2 || i == 3);
    }
}

/// Managed teams say that they are, and can be seen.
pub proof fn law_managed_teams()
    ensures
        DEFAULT_DESCRIPTION@ == "Managed by the rust-lang/team repository."@,
        DEFAULT_PRIVACY is Closed,
{
}

/// Whether bors merges in a repository.
pub open spec fn merged_by_bors(repo: RepoView) -> bool {
    exists|i: int| 0 <= i < repo.bots.len() && #[trigger] repo.bots[i] is Bors
}

/// Whatever the repository, stale reviews are dismissed if and only if the branch says so, the
/// checks are those of the branch, in their order, and no more is asked of them; administrators
/// are bound; and no team may push and no dismissal is restricted. Where bors merges, no review
/// is needed and nobody but bors may push; elsewhere one review is, and nobody is named.
pub proof fn law_protection(repo: RepoView, branch: BranchView)
    ensures
        ({
            let protection = wanted_protection(repo, branch);
            let reviews = protection.required_pull_request_reviews;
            let checks = protection.required_status_checks.checks;
            let users = protection.restrictions.users;
            &&& reviews.dismiss_stale_reviews <==> branch.dismiss_stale_review
            &&& reviews.dismissal_restrictions.len() == 0
            &&& reviews.required_approving_review_count + users.len() == 1
            &&& reviews.required_approving_review_count == 0 <==> merged_by_bors(repo)
            &&& forall|i: int|
                0 <= i < users.len() ==> #[trigger] users[i] == UserRestrictionView::Name("bors"@)
            &&& protection.restrictions.teams.len() == 0
            &&& protection.enforce_admins == EnforceAdmins::Bool(true)
            &&& !protection.required_status_checks.strict
            &&& checks.len() == branch.ci_checks.len()
            &&& forall|i: int|
                0 <= i < checks.len() ==> (#[trigger] checks[i]).context == branch.ci_checks[i]
        }),
{
    if repo.bots.contains(Bot::Bors) {
        let i = choose|i: int| 0 <= i < repo.bots.len() && repo.bots[i] == Bot::Bors;
        assert(repo.bots[i] is Bors);
    }
    if merged_by_bors(repo) {
        let i = choose|i: int| 0 <= i < repo.bots.len() && #[trigger] repo.bots[i] is Bors;
        assert(repo.bots[i] == Bot::Bors);
    }
}

/// The protection of a branch depends on nothing but whether bors merges in the repository, the
/// checks of the branch and what it says of stale reviews.
pub proof fn law_protection_depends(
    repo: RepoView,
    branch: BranchView,
    other_repo: RepoView,
    other_branch: BranchView,
)
    requires
        merged_by_bors(repo) == merged_by_bors(other_repo),
        branch.ci_checks == other_branch.ci_checks,
        branch.dismiss_stale_review == other_branch.dismiss_stale_review,
    ensures
        wanted_protection(repo, branch) == wanted_protection(other_repo, other_branch),
{
    law_protection(repo, branch);
    law_protection(other_repo, other_branch);
    let a = wanted_protection(repo, branch);
    let b = wanted_protection(other_repo, other_branch);
    assert(a.restrictions.users =~= b.restrictions.users);
    assert(a.restrictions.teams =~= b.restrictions.teams);
    assert(a.required_status_checks.checks =~= b.required_status_checks.checks);
    assert(a.required_pull_request_reviews.dismissal_restrictions
        =~= b.required_pull_request_reviews.dismissal_restrictions);
}

} // verus!
