//! The rules that turn entries of the team repository into what GitHub is told.
use vstd::prelude::*;

use crate::api::{
    BranchProtection, BranchProtectionView, Check, CheckView, EnforceAdmins, PullRequestReviews,
    PullRequestReviewsView, RepoPermission, RequiredStatusChecks, RequiredStatusChecksView,
    Restrictions, RestrictionsView, TeamPrivacy, UserRestriction, UserRestrictionView,
};
use crate::team_data::{self, Bot, Branch, BranchView, Repo, RepoView};

verus! {

/// The description that every managed team has.
pub const DEFAULT_DESCRIPTION: &'static str = "Managed by the rust-lang/team repository.";

/// The privacy that every managed team has.
pub const DEFAULT_PRIVACY: TeamPrivacy = TeamPrivacy::Closed;

/// The account of a bot.
pub open spec fn bot_account(bot: Bot) -> Seq<char> {
    match bot {
        Bot::Bors => "bors"@,
        Bot::Highfive => "rust-highfive"@,
        Bot::RustTimer => "rust-timer"@,
        Bot::Rustbot => "rustbot"@,
    }
}

/// Gives the account of a bot.
pub fn bot_name(bot: &Bot) -> (name: &'static str)
    ensures
        name@ == bot_account(*bot),
{
    match bot {
        Bot::Bors => "bors",
        Bot::Highfive => "rust-highfive",
        Bot::RustTimer => "rust-timer",
        Bot::Rustbot => "rustbot",
    }
}

/// The level of access on GitHub that goes by the same name.
pub open spec fn granted(permission: team_data::RepoPermission) -> RepoPermission {
    match permission {
        team_data::RepoPermission::Write => RepoPermission::Write,
        team_data::RepoPermission::Admin => RepoPermission::Admin,
        team_data::RepoPermission::Maintain => RepoPermission::Maintain,
        team_data::RepoPermission::Triage => RepoPermission::Triage,
    }
}

/// Gives the level of access on GitHub that goes by the same name.
pub fn convert_permission(p: &team_data::RepoPermission) -> (permission: RepoPermission)
    ensures
        permission == granted(*p),
{
    match *p {
        team_data::RepoPermission::Write => RepoPermission::Write,
        team_data::RepoPermission::Admin => RepoPermission::Admin,
        team_data::RepoPermission::Maintain => RepoPermission::Maintain,
        team_data::RepoPermission::Triage => RepoPermission::Triage,
    }
}

/// The teams of the bots, which are on GitHub without being in the team repository.
pub open spec fn bot_team(name: Seq<char>) -> bool {
    name == "bors"@ || name == "highfive"@ || name == "rfcbot"@ || name == "bots"@
}

/// Tells whether a team is one of the bots' teams.
pub fn is_bot_team(name: &String) -> (special: bool)
    ensures
        special == bot_team(name@),
{
    *name == "bors".to_owned() || *name == "highfive".to_owned() || *name == "rfcbot".to_owned()
        || *name == "bots".to_owned()
}

/// The protection that a branch of a repository is to have. Where bors merges, no review has
/// to approve and nobody but bors may push.
pub open spec fn wanted_protection(repo: RepoView, branch: BranchView) -> BranchProtectionView {
    let bors = repo.bots.contains(Bot::Bors);
    BranchProtectionView {
        required_status_checks: RequiredStatusChecksView {
            strict: false,
            checks: branch.ci_checks.map_values(|check: Seq<char>| CheckView { context: check }),
        },
        enforce_admins: EnforceAdmins::Bool(true),
        required_pull_request_reviews: PullRequestReviewsView {
            dismissal_restrictions: Seq::empty(),
            dismiss_stale_reviews: branch.dismiss_stale_review,
            required_approving_review_count: if bors {
                0
            } else {
                1
            },
        },
        restrictions: RestrictionsView {
            users: if bors {
                seq![UserRestrictionView::Name("bors"@)]
            } else {
                Seq::empty()
            },
            teams: Seq::empty(),
        },
    }
}

fn has_bors(bots: &Vec<Bot>) -> (found: bool)
    ensures
        found == bots@.contains(Bot::Bors),
{
    for i in 0..bots.len()
        invariant
            forall|j: int| 0 <= j < i ==> bots@[j] != Bot::Bors,
    {
        if bots[i] == Bot::Bors {
            return true;
        }
    }
    false
}

/// Gives the protection that a branch of a repository is to have.
pub fn branch_protection(expected_repo: &Repo, branch: &Branch) -> (protection: BranchProtection)
    ensures
        protection.deep_view() == wanted_protection(
            expected_repo.deep_view(),
            branch.deep_view(),
        ),
        protection.required_pull_request_reviews.dismiss_stale_reviews
            == branch.dismiss_stale_review,
{
    let bors = has_bors(&expected_repo.bots);
    let required_approving_review_count: u8 = if bors {
        0
    } else {
        1
    };
    let mut users: Vec<UserRestriction> = Vec::new();
    if bors {
        users.push(UserRestriction::Name("bors".to_owned()));
    }
    let mut checks: Vec<Check> = Vec::new();
    for i in 0..branch.ci_checks.len()
        invariant
            checks.len() == i,
            forall|j: int|
                0 <= j < i ==> #[trigger] checks@[j].context@ == branch.ci_checks@[j]@,
    {
        checks.push(Check { context: branch.ci_checks[i].clone() });
    }
    let dismissal_restrictions: Vec<String> = Vec::new();
    let teams: Vec<String> = Vec::new();
    proof {
        let wanted = wanted_protection(expected_repo.deep_view(), branch.deep_view());
        assert(checks.deep_view() =~= wanted.required_status_checks.checks);
        assert(users.deep_view() =~= wanted.restrictions.users);
        assert(teams.deep_view() =~= Seq::empty());
        assert(dismissal_restrictions.deep_view() =~= Seq::empty());
    }
    BranchProtection {
        required_status_checks: RequiredStatusChecks { strict: false, checks },
        enforce_admins: EnforceAdmins::Bool(true),
        required_pull_request_reviews: PullRequestReviews {
            dismissal_restrictions,
            dismiss_stale_reviews: branch.dismiss_stale_review,
            required_approving_review_count,
        },
        restrictions: Restrictions { users, teams },
    }
}

} // verus!
