//! What GitHub holds and what can be asked of it.
use vstd::prelude::*;

use crate::lists::same_names;

verus! {

/// Who can see a team.
#[derive(Clone, Copy, PartialEq, Eq, Structural, Debug)]
pub enum TeamPrivacy {
    Closed,
    Secret,
}

impl DeepView for TeamPrivacy {
    type V = TeamPrivacy;

    open spec fn deep_view(&self) -> TeamPrivacy {
        *self
    }
}

/// What a member may do in a team.
#[derive(Clone, Copy, PartialEq, Eq, Structural, Debug)]
pub enum TeamRole {
    Member,
    Maintainer,
}

impl DeepView for TeamRole {
    type V = TeamRole;

    open spec fn deep_view(&self) -> TeamRole {
        *self
    }
}

/// A level of access to a repository.
#[derive(Clone, Copy, PartialEq, Eq, Structural, Debug)]
pub enum RepoPermission {
    Write,
    Admin,
    Maintain,
    Triage,
}

impl DeepView for RepoPermission {
    type V = RepoPermission;

    open spec fn deep_view(&self) -> RepoPermission {
        *self
    }
}

/// A team as it is on GitHub.
#[derive(PartialEq, Eq, Debug)]
pub struct Team {
    pub name: String,
    pub description: String,
    pub privacy: TeamPrivacy,
}

pub struct TeamView {
    pub name: Seq<char>,
    pub description: Seq<char>,
    pub privacy: TeamPrivacy,
}

impl DeepView for Team {
    type V = TeamView;

    open spec fn deep_view(&self) -> TeamView {
        TeamView { name: self.name@, description: self.description@, privacy: self.privacy }
    }
}

impl Clone for Team {
    fn clone(&self) -> (copy: Self)
        ensures
            copy.deep_view() == self.deep_view(),
    {
        Team {
            name: self.name.clone(),
            description: self.description.clone(),
            privacy: self.privacy,
        }
    }
}

/// A member of a team as it is on GitHub.
#[derive(PartialEq, Eq, Debug)]
pub struct TeamMember {
    pub username: String,
    pub role: TeamRole,
}

pub struct TeamMemberView {
    pub username: Seq<char>,
    pub role: TeamRole,
}

impl DeepView for TeamMember {
    type V = TeamMemberView;

    open spec fn deep_view(&self) -> TeamMemberView {
        TeamMemberView { username: self.username@, role: self.role }
    }
}

impl Clone for TeamMember {
    fn clone(&self) -> (copy: Self)
        ensures
            copy.deep_view() == self.deep_view(),
    {
        TeamMember { username: self.username.clone(), role: self.role }
    }
}

/// A repository as it is on GitHub.
#[derive(PartialEq, Eq, Debug)]
pub struct Repo {
    pub org: String,
    pub name: String,
    pub description: Option<String>,
    pub default_branch: String,
}

pub struct RepoView {
    pub org: Seq<char>,
    pub name: Seq<char>,
    pub description: Option<Seq<char>>,
    pub default_branch: Seq<char>,
}

impl DeepView for Repo {
    type V = RepoView;

    open spec fn deep_view(&self) -> RepoView {
        RepoView {
            org: self.org@,
            name: self.name@,
            description: self.description.deep_view(),
            default_branch: self.default_branch@,
        }
    }
}

/// A team with access to a repository on GitHub.
#[derive(PartialEq, Eq, Debug)]
pub struct RepoTeam {
    pub name: String,
    pub permission: RepoPermission,
}

pub struct RepoTeamView {
    pub name: Seq<char>,
    pub permission: RepoPermission,
}

impl DeepView for RepoTeam {
    type V = RepoTeamView;

    open spec fn deep_view(&self) -> RepoTeamView {
        RepoTeamView { name: self.name@, permission: self.permission }
    }
}

/// A person with access to a repository on GitHub.
#[derive(PartialEq, Eq, Debug)]
pub struct RepoUser {
    pub name: String,
    pub permission: RepoPermission,
}

pub struct RepoUserView {
    pub name: Seq<char>,
    pub permission: RepoPermission,
}

impl DeepView for RepoUser {
    type V = RepoUserView;

    open spec fn deep_view(&self) -> RepoUserView {
        RepoUserView { name: self.name@, permission: self.permission }
    }
}

/// What has to hold before a branch can change.
#[derive(Debug)]
pub struct BranchProtection {
    pub required_status_checks: RequiredStatusChecks,
    pub enforce_admins: EnforceAdmins,
    pub required_pull_request_reviews: PullRequestReviews,
    pub restrictions: Restrictions,
}

pub struct BranchProtectionView {
    pub required_status_checks: RequiredStatusChecksView,
    pub enforce_admins: EnforceAdmins,
    pub required_pull_request_reviews: PullRequestReviewsView,
    pub restrictions: RestrictionsView,
}

impl DeepView for BranchProtection {
    type V = BranchProtectionView;

    open spec fn deep_view(&self) -> BranchProtectionView {
        BranchProtectionView {
            required_status_checks: self.required_status_checks.deep_view(),
            enforce_admins: self.enforce_admins,
            required_pull_request_reviews: self.required_pull_request_reviews.deep_view(),
            restrictions: self.restrictions.deep_view(),
        }
    }
}

impl Clone for BranchProtection {
    fn clone(&self) -> (copy: Self)
        ensures
            copy.deep_view() == self.deep_view(),
    {
        BranchProtection {
            required_status_checks: self.required_status_checks.clone(),
            enforce_admins: self.enforce_admins,
            required_pull_request_reviews: self.required_pull_request_reviews.clone(),
            restrictions: self.restrictions.clone(),
        }
    }
}

/// The checks that have to pass.
#[derive(Debug)]
pub struct RequiredStatusChecks {
    pub strict: bool,
    pub checks: Vec<Check>,
}

pub struct RequiredStatusChecksView {
    pub strict: bool,
    pub checks: Seq<CheckView>,
}

impl DeepView for RequiredStatusChecks {
    type V = RequiredStatusChecksView;

    open spec fn deep_view(&self) -> RequiredStatusChecksView {
        RequiredStatusChecksView { strict: self.strict, checks: self.checks.deep_view() }
    }
}

impl Clone for RequiredStatusChecks {
    fn clone(&self) -> (copy: Self)
        ensures
            copy.deep_view() == self.deep_view(),
    {
        let checks = self.checks.clone();
        assert(checks.deep_view() =~= self.checks.deep_view());
        RequiredStatusChecks { strict: self.strict, checks }
    }
}

/// One check, by the name it reports under.
#[derive(Debug)]
pub struct Check {
    pub context: String,
}

pub struct CheckView {
    pub context: Seq<char>,
}

impl DeepView for Check {
    type V = CheckView;

    open spec fn deep_view(&self) -> CheckView {
        CheckView { context: self.context@ }
    }
}

impl Clone for Check {
    fn clone(&self) -> (copy: Self)
        ensures
            copy.deep_view() == self.deep_view(),
    {
        Check { context: self.context.clone() }
    }
}

/// Whether the protection binds administrators too.
#[derive(Clone, Copy, PartialEq, Eq, Structural, Debug)]
pub enum EnforceAdmins {
    Bool(bool),
}

/// What a pull request needs.
#[derive(Debug)]
pub struct PullRequestReviews {
    pub dismissal_restrictions: Vec<String>,
    pub dismiss_stale_reviews: bool,
    pub required_approving_review_count: u8,
}

pub struct PullRequestReviewsView {
    pub dismissal_restrictions: Seq<Seq<char>>,
    pub dismiss_stale_reviews: bool,
    pub required_approving_review_count: u8,
}

impl DeepView for PullRequestReviews {
    type V = PullRequestReviewsView;

    open spec fn deep_view(&self) -> PullRequestReviewsView {
        PullRequestReviewsView {
            dismissal_restrictions: self.dismissal_restrictions.deep_view(),
            dismiss_stale_reviews: self.dismiss_stale_reviews,
            required_approving_review_count: self.required_approving_review_count,
        }
    }
}

impl Clone for PullRequestReviews {
    fn clone(&self) -> (copy: Self)
        ensures
            copy.deep_view() == self.deep_view(),
    {
        let dismissal_restrictions = self.dismissal_restrictions.clone();
        assert(dismissal_restrictions.deep_view() =~= self.dismissal_restrictions.deep_view());
        PullRequestReviews {
            dismissal_restrictions,
            dismiss_stale_reviews: self.dismiss_stale_reviews,
            required_approving_review_count: self.required_approving_review_count,
        }
    }
}

/// Who may push to the branch.
#[derive(Debug)]
pub struct Restrictions {
    pub users: Vec<UserRestriction>,
    pub teams: Vec<String>,
}

pub struct RestrictionsView {
    pub users: Seq<UserRestrictionView>,
    pub teams: Seq<Seq<char>>,
}

impl DeepView for Restrictions {
    type V = RestrictionsView;

    open spec fn deep_view(&self) -> RestrictionsView {
        RestrictionsView { users: self.users.deep_view(), teams: self.teams.deep_view() }
    }
}

impl Clone for Restrictions {
    fn clone(&self) -> (copy: Self)
        ensures
            copy.deep_view() == self.deep_view(),
    {
        let users = self.users.clone();
        let teams = self.teams.clone();
        assert(users.deep_view() =~= self.users.deep_view());
        assert(teams.deep_view() =~= self.teams.deep_view());
        Restrictions { users, teams }
    }
}

/// A user who may push, by name.
#[derive(Debug)]
pub enum UserRestriction {
    Name(String),
}

pub enum UserRestrictionView {
    Name(Seq<char>),
}

impl DeepView for UserRestriction {
    type V = UserRestrictionView;

    open spec fn deep_view(&self) -> UserRestrictionView {
        match self {
            UserRestriction::Name(name) => UserRestrictionView::Name(name@),
        }
    }
}

impl Clone for UserRestriction {
    fn clone(&self) -> (copy: Self)
        ensures
            copy.deep_view() == self.deep_view(),
    {
        match self {
            UserRestriction::Name(name) => UserRestriction::Name(name.clone()),
        }
    }
}

/// Whether two lists hold the same checks in the same order.
pub fn same_checks(a: &Vec<Check>, b: &Vec<Check>) -> (same: bool)
    ensures
        same == (a.deep_view() == b.deep_view()),
{
    if a.len() != b.len() {
        assert(a.deep_view().len() != b.deep_view().len());
        return false;
    }
    for i in 0..a.len()
        invariant
            a.len() == b.len(),
            forall|j: int| 0 <= j < i ==> a.deep_view()[j] == b.deep_view()[j],
    {
        if a[i].context != b[i].context {
            assert(a.deep_view()[i as int] != b.deep_view()[i as int]);
            return false;
        }
    }
    assert(a.deep_view() =~= b.deep_view());
    true
}

/// Whether two lists hold the same users in the same order.
pub fn same_users(a: &Vec<UserRestriction>, b: &Vec<UserRestriction>) -> (same: bool)
    ensures
        same == (a.deep_view() == b.deep_view()),
{
    if a.len() != b.len() {
        assert(a.deep_view().len() != b.deep_view().len());
        return false;
    }
    for i in 0..a.len()
        invariant
            a.len() == b.len(),
            forall|j: int| 0 <= j < i ==> a.deep_view()[j] == b.deep_view()[j],
    {
        let UserRestriction::Name(left) = &a[i];
        let UserRestriction::Name(right) = &b[i];
        if *left != *right {
            assert(a.deep_view()[i as int] != b.deep_view()[i as int]);
            return false;
        }
    }
    assert(a.deep_view() =~= b.deep_view());
    true
}

impl PartialEq for BranchProtection {
    fn eq(&self, other: &Self) -> (same: bool) {
        self.required_status_checks.strict == other.required_status_checks.strict && same_checks(
            &self.required_status_checks.checks,
            &other.required_status_checks.checks,
        ) && self.enforce_admins == other.enforce_admins && same_names(
            &self.required_pull_request_reviews.dismissal_restrictions,
            &other.required_pull_request_reviews.dismissal_restrictions,
        ) && self.required_pull_request_reviews.dismiss_stale_reviews
            == other.required_pull_request_reviews.dismiss_stale_reviews
            && self.required_pull_request_reviews.required_approving_review_count
            == other.required_pull_request_reviews.required_approving_review_count && same_users(
            &self.restrictions.users,
            &other.restrictions.users,
        ) && same_names(&self.restrictions.teams, &other.restrictions.teams)
    }
}

impl vstd::std_specs::cmp::PartialEqSpecImpl for BranchProtection {
    open spec fn obeys_eq_spec() -> bool {
        true
    }

    open spec fn eq_spec(&self, other: &Self) -> bool {
        self.deep_view() == other.deep_view()
    }
}

} // verus!
