//! Carrying out diffs: the calls that each of them needs.
use vstd::prelude::*;

use crate::api::{BranchProtectionView, RepoPermission, TeamRole};
use crate::call::{Request, RequestView};
use crate::diff::{
    BranchProtectionDiff, BranchProtectionDiffOperation, BranchProtectionDiffOperationView,
    BranchProtectionDiffView, CreateRepoDiff, CreateRepoDiffView, CreateTeamDiff,
    CreateTeamDiffView, DeleteTeamDiff, DeleteTeamDiffView, Diff, DiffView, EditTeamDiff,
    EditTeamDiffView, MemberDiff, RepoCollaborator, RepoCollaboratorView, RepoDiff, RepoDiffView,
    RepoPermissionAssignmentDiff, RepoPermissionAssignmentDiffView, RepoPermissionDiff, TeamDiff,
    TeamDiffView, UpdateRepoDiff, UpdateRepoDiffView,
};

verus! {

/// The call that a change of one member needs; none if nothing changes.
pub open spec fn member_request(
    diff: MemberDiff,
    org: Seq<char>,
    team: Seq<char>,
    member: Seq<char>,
) -> Option<RequestView> {
    match diff {
        MemberDiff::Create(role) | MemberDiff::ChangeRole((_, role)) => Some(
            RequestView::SetTeamMembership { org, team, user: member, role },
        ),
        MemberDiff::Delete => Some(RequestView::RemoveTeamMembership { org, team, user: member }),
        MemberDiff::Noop => None,
    }
}

/// The calls that the changes of the members need, in their order.
pub open spec fn member_requests(
    org: Seq<char>,
    team: Seq<char>,
    diffs: Seq<(Seq<char>, MemberDiff)>,
) -> Seq<RequestView>
    decreases diffs.len(),
{
    if diffs.len() == 0 {
        Seq::empty()
    } else {
        let earlier = member_requests(org, team, diffs.drop_last());
        match member_request(diffs.last().1, org, team, diffs.last().0) {
            Some(request) => earlier.push(request),
            None => earlier,
        }
    }
}

impl CreateTeamDiffView {
    /// The calls that create the team: the team, then its members.
    pub open spec fn requests(self) -> Seq<RequestView> {
        seq![
            RequestView::CreateTeam {
                org: self.org,
                name: self.name,
                description: self.description,
                privacy: self.privacy,
            },
        ] + self.members.map_values(
            |member: (Seq<char>, TeamRole)|
                RequestView::SetTeamMembership {
                    org: self.org,
                    team: self.name,
                    user: member.0,
                    role: member.1,
                },
        )
    }
}

impl EditTeamDiffView {
    /// The calls that change the team: its properties, then its members.
    pub open spec fn requests(self) -> Seq<RequestView> {
        seq![
            RequestView::EditTeam {
                org: self.org,
                name: self.name,
                new_name: self.name_diff,
                new_description: match self.description_diff {
                    Some((_, description)) => Some(description),
                    None => None,
                },
                new_privacy: match self.privacy_diff {
                    Some((_, privacy)) => Some(privacy),
                    None => None,
                },
            },
        ] + member_requests(self.org, self.name, self.member_diffs)
    }
}

impl DeleteTeamDiffView {
    /// The call that deletes the team.
    pub open spec fn requests(self) -> Seq<RequestView> {
        seq![RequestView::DeleteTeam { org: self.org, name: self.name }]
    }
}

impl TeamDiffView {
    /// The calls that the change of a team needs.
    pub open spec fn requests(self) -> Seq<RequestView> {
        match self {
            TeamDiffView::Create(create) => create.requests(),
            TeamDiffView::Edit(edit) => edit.requests(),
            TeamDiffView::Delete(delete) => delete.requests(),
        }
    }
}

impl RepoPermissionAssignmentDiffView {
    /// The call that changes the access.
    pub open spec fn request(self, org: Seq<char>, repo: Seq<char>) -> RequestView {
        match (self.diff, self.collaborator) {
            (RepoPermissionDiff::Create(permission), RepoCollaboratorView::Team(team))
            | (RepoPermissionDiff::Update(_, permission), RepoCollaboratorView::Team(team)) =>
                RequestView::UpdateTeamRepoPermissions { org, repo, team, permission },
            (RepoPermissionDiff::Create(permission), RepoCollaboratorView::User(user))
            | (RepoPermissionDiff::Update(_, permission), RepoCollaboratorView::User(user)) =>
                RequestView::UpdateUserRepoPermissions { org, repo, user, permission },
            (RepoPermissionDiff::Delete(_), RepoCollaboratorView::Team(team)) =>
                RequestView::RemoveTeamFromRepo { org, repo, team },
            (RepoPermissionDiff::Delete(_), RepoCollaboratorView::User(user)) =>
                RequestView::RemoveCollaboratorFromRepo { org, repo, user },
        }
    }
}

impl BranchProtectionDiffView {
    /// The calls that change the protection of the branch; first of all the branch is created
    /// if it has to be.
    pub open spec fn requests(self, org: Seq<char>, repo: Seq<char>) -> Seq<RequestView> {
        let branch = self.name;
        match self.operation {
            BranchProtectionDiffOperationView::CreateWithBranch(protection, commit) => seq![
                RequestView::CreateBranch { org, repo, branch, commit },
                RequestView::UpdateBranchProtection { org, repo, branch, protection },
            ],
            BranchProtectionDiffOperationView::Create(protection)
            | BranchProtectionDiffOperationView::Update(_, protection) => seq![
                RequestView::UpdateBranchProtection { org, repo, branch, protection },
            ],
            BranchProtectionDiffOperationView::Delete => seq![
                RequestView::DeleteBranchProtection { org, repo, branch },
            ],
        }
    }
}

/// The calls that the changes of some protections need, in their order.
pub open spec fn protection_requests(
    org: Seq<char>,
    repo: Seq<char>,
    diffs: Seq<BranchProtectionDiffView>,
) -> Seq<RequestView>
    decreases diffs.len(),
{
    if diffs.len() == 0 {
        Seq::empty()
    } else {
        protection_requests(org, repo, diffs.drop_last()) + diffs.last().requests(org, repo)
    }
}

impl UpdateRepoDiffView {
    /// The calls that change the repository: its description, the access to it, then the
    /// protection of its branches. A changed name needs no call.
    pub open spec fn requests(self) -> Seq<RequestView> {
        let description = match self.description_diff {
            Some((_, description)) => seq![
                RequestView::EditRepo { org: self.org, name: self.name, description },
            ],
            None => Seq::empty(),
        };
        description + self.permission_diffs.map_values(
            |diff: RepoPermissionAssignmentDiffView| diff.request(self.org, self.name),
        ) + protection_requests(self.org, self.name, self.branch_protection_diffs)
    }
}

/// One step of carrying out a diff.
#[derive(PartialEq, Debug)]
pub enum ApplyStep {
    /// Makes a call.
    Send(Request),
    /// Asks for the head of the default branch of the repository that was created last.
    FindHead { org: String, repo: String },
    /// Creates a branch at the head that was found last.
    BranchAtHead { org: String, repo: String, branch: String },
}

pub enum ApplyStepView {
    Send(RequestView),
    FindHead { org: Seq<char>, repo: Seq<char> },
    BranchAtHead { org: Seq<char>, repo: Seq<char>, branch: Seq<char> },
}

impl DeepView for ApplyStep {
    type V = ApplyStepView;

    open spec fn deep_view(&self) -> ApplyStepView {
        match self {
            ApplyStep::Send(request) => ApplyStepView::Send(request.deep_view()),
            ApplyStep::FindHead { org, repo } => ApplyStepView::FindHead { org: org@, repo: repo@ },
            ApplyStep::BranchAtHead { org, repo, branch } => ApplyStepView::BranchAtHead {
                org: org@,
                repo: repo@,
                branch: branch@,
            },
        }
    }
}

/// The steps that make some calls.
pub open spec fn sending(requests: Seq<RequestView>) -> Seq<ApplyStepView> {
    requests.map_values(|request: RequestView| ApplyStepView::Send(request))
}

/// The steps that create branches of a new repository and protect them.
pub open spec fn new_branch_steps(
    org: Seq<char>,
    repo: Seq<char>,
    protections: Seq<(Seq<char>, BranchProtectionView)>,
) -> Seq<ApplyStepView>
    decreases protections.len(),
{
    if protections.len() == 0 {
        Seq::empty()
    } else {
        let branch = protections.last().0;
        let protection = protections.last().1;
        new_branch_steps(org, repo, protections.drop_last()) + seq![
            ApplyStepView::BranchAtHead { org, repo, branch },
            ApplyStepView::Send(
                RequestView::UpdateBranchProtection { org, repo, branch, protection },
            ),
        ]
    }
}

impl CreateRepoDiffView {
    /// The calls that give access to the new repository.
    pub open spec fn permission_requests(self) -> Seq<RequestView> {
        self.permissions.map_values(
            |permission: (RepoCollaboratorView, RepoPermission)|
                (RepoPermissionAssignmentDiffView {
                    collaborator: permission.0,
                    diff: RepoPermissionDiff::Create(permission.1),
                }).request(self.org, self.name),
        )
    }

    /// The steps that create the repository: the repository, the access to it, then its
    /// branches, which start at the head of its default branch, and their protection.
    pub open spec fn steps(self) -> Seq<ApplyStepView> {
        seq![
            ApplyStepView::Send(
                RequestView::CreateRepo {
                    org: self.org,
                    name: self.name,
                    description: self.description,
                },
            ),
        ] + sending(self.permission_requests()) + seq![
            ApplyStepView::FindHead { org: self.org, repo: self.name },
        ] + new_branch_steps(self.org, self.name, self.branch_protections)
    }
}

impl RepoDiffView {
    /// The steps that the change of a repository needs.
    pub open spec fn steps(self) -> Seq<ApplyStepView> {
        match self {
            RepoDiffView::Create(create) => create.steps(),
            RepoDiffView::Update(update) => sending(update.requests()),
        }
    }
}

/// The steps that the changes of some teams need, in their order.
pub open spec fn team_steps(diffs: Seq<TeamDiffView>) -> Seq<ApplyStepView>
    decreases diffs.len(),
{
    if diffs.len() == 0 {
        Seq::empty()
    } else {
        team_steps(diffs.drop_last()) + sending(diffs.last().requests())
    }
}

/// The steps that the changes of some repositories need, in their order.
pub open spec fn repo_steps(diffs: Seq<RepoDiffView>) -> Seq<ApplyStepView>
    decreases diffs.len(),
{
    if diffs.len() == 0 {
        Seq::empty()
    } else {
        repo_steps(diffs.drop_last()) + diffs.last().steps()
    }
}

impl DiffView {
    /// The steps that carry out a diff: the teams, then the repositories.
    pub open spec fn steps(self) -> Seq<ApplyStepView> {
        team_steps(self.team_diffs) + repo_steps(self.repo_diffs)
    }
}

impl MemberDiff {
    /// Gives the call that the change needs.
    pub fn apply(&self, org: &String, team: &String, member: &String) -> (request: Option<Request>)
        ensures
            request.deep_view() == member_request(*self, org@, team@, member@),
    {
        match self {
            MemberDiff::Create(role) | MemberDiff::ChangeRole((_, role)) => Some(
                Request::SetTeamMembership {
                    org: org.clone(),
                    team: team.clone(),
                    user: member.clone(),
                    role: *role,
                },
            ),
            MemberDiff::Delete => Some(
                Request::RemoveTeamMembership {
                    org: org.clone(),
                    team: team.clone(),
                    user: member.clone(),
                },
            ),
            MemberDiff::Noop => None,
        }
    }
}

impl CreateTeamDiff {
    /// Lists the calls that create the team.
    pub fn apply(&self) -> (requests: Vec<Request>)
        ensures
            requests.deep_view() == self.deep_view().requests(),
    {
        let ghost all = self.deep_view().requests();
        let mut requests: Vec<Request> = Vec::new();
        requests.push(
            Request::CreateTeam {
                org: self.org.clone(),
                name: self.name.clone(),
                description: self.description.clone(),
                privacy: self.privacy,
            },
        );
        for i in 0..self.members.len()
            invariant
                all == self.deep_view().requests(),
                requests.len() == i + 1,
                forall|j: int|
                    0 <= j < requests.len() ==> #[trigger] requests@[j].deep_view() == all[j],
        {
            let (member, role) = &self.members[i];
            match MemberDiff::Create(*role).apply(&self.org, &self.name, member) {
                Some(request) => {
                    requests.push(request);
                },
                None => {
                    assert(false);
                },
            }
        }
        assert(requests.deep_view() =~= all);
        requests
    }
}

impl EditTeamDiff {
    /// Lists the calls that change the team.
    pub fn apply(&self) -> (requests: Vec<Request>)
        ensures
            requests.deep_view() == self.deep_view().requests(),
    {
        let ghost view = self.deep_view();
        let mut requests: Vec<Request> = Vec::new();
        let new_name = match &self.name_diff {
            Some(name) => Some(name.clone()),
            None => None,
        };
        let new_description = match &self.description_diff {
            Some((_, description)) => Some(description.clone()),
            None => None,
        };
        let new_privacy = match &self.privacy_diff {
            Some((_, privacy)) => Some(*privacy),
            None => None,
        };
        requests.push(
            Request::EditTeam {
                org: self.org.clone(),
                name: self.name.clone(),
                new_name,
                new_description,
                new_privacy,
            },
        );
        let ghost first = requests.deep_view();
        assert(first =~= seq![view.requests()[0]]);
        assert(first =~= first + member_requests(view.org, view.name, view.member_diffs.take(0)));
        for i in 0..self.member_diffs.len()
            invariant
                view == self.deep_view(),
                requests.deep_view() == first + member_requests(
                    view.org,
                    view.name,
                    view.member_diffs.take(i as int),
                ),
        {
            let (member, diff) = &self.member_diffs[i];
            let ghost before = requests.deep_view();
            proof {
                let next = view.member_diffs.take(i + 1);
                assert(next.drop_last() =~= view.member_diffs.take(i as int));
                assert(next.last() == self.member_diffs@[i as int].deep_view());
            }
            match diff.apply(&self.org, &self.name, member) {
                Some(request) => {
                    let ghost added = request.deep_view();
                    requests.push(request);
                    proof {
                        assert(requests.deep_view() =~= before.push(added));
                        assert(requests.deep_view() =~= first + member_requests(
                            view.org,
                            view.name,
                            view.member_diffs.take(i + 1),
                        ));
                    }
                },
                None => {},
            }
        }
        assert(view.member_diffs.take(self.member_diffs.len() as int) =~= view.member_diffs);
        assert(requests.deep_view() =~= view.requests());
        requests
    }
}

impl DeleteTeamDiff {
    /// Lists the call that deletes the team.
    pub fn apply(&self) -> (requests: Vec<Request>)
        ensures
            requests.deep_view() == self.deep_view().requests(),
    {
        let mut requests: Vec<Request> = Vec::new();
        requests.push(Request::DeleteTeam { org: self.org.clone(), name: self.name.clone() });
        assert(requests.deep_view() =~= self.deep_view().requests());
        requests
    }
}

impl TeamDiff {
    /// Lists the calls that the change of a team needs.
    pub fn apply(&self) -> (requests: Vec<Request>)
        ensures
            requests.deep_view() == self.deep_view().requests(),
    {
        match self {
            TeamDiff::Create(create) => create.apply(),
            TeamDiff::Edit(edit) => edit.apply(),
            TeamDiff::Delete(delete) => delete.apply(),
        }
    }
}

impl RepoPermissionAssignmentDiff {
    /// Gives the call that changes the access.
    pub fn apply(&self, org: &String, repo_name: &String) -> (request: Request)
        ensures
            request.deep_view() == self.deep_view().request(org@, repo_name@),
    {
        match &self.diff {
            RepoPermissionDiff::Create(permission) | RepoPermissionDiff::Update(_, permission) => {
                match &self.collaborator {
                    RepoCollaborator::Team(team) => Request::UpdateTeamRepoPermissions {
                        org: org.clone(),
                        repo: repo_name.clone(),
                        team: team.clone(),
                        permission: *permission,
                    },
                    RepoCollaborator::User(user) => Request::UpdateUserRepoPermissions {
                        org: org.clone(),
                        repo: repo_name.clone(),
                        user: user.clone(),
                        permission: *permission,
                    },
                }
            },
            RepoPermissionDiff::Delete(_) => match &self.collaborator {
                RepoCollaborator::Team(team) => Request::RemoveTeamFromRepo {
                    org: org.clone(),
                    repo: repo_name.clone(),
                    team: team.clone(),
                },
                RepoCollaborator::User(user) => Request::RemoveCollaboratorFromRepo {
                    org: org.clone(),
                    repo: repo_name.clone(),
                    user: user.clone(),
                },
            },
        }
    }
}

impl BranchProtectionDiff {
    /// Lists the calls that change the protection of the branch.
    pub fn apply(&self, org: &String, repo_name: &String) -> (requests: Vec<Request>)
        ensures
            requests.deep_view() == self.deep_view().requests(org@, repo_name@),
    {
        let mut requests: Vec<Request> = Vec::new();
        if let BranchProtectionDiffOperation::CreateWithBranch(_, main_branch_commit)
            = &self.operation {
            requests.push(
                Request::CreateBranch {
                    org: org.clone(),
                    repo: repo_name.clone(),
                    branch: self.name.clone(),
                    commit: main_branch_commit.clone(),
                },
            );
        }
        match &self.operation {
            BranchProtectionDiffOperation::CreateWithBranch(protection, _)
            | BranchProtectionDiffOperation::Create(protection)
            | BranchProtectionDiffOperation::Update(_, protection) => {
                requests.push(
                    Request::UpdateBranchProtection {
                        org: org.clone(),
                        repo: repo_name.clone(),
                        branch: self.name.clone(),
                        protection: protection.clone(),
                    },
                );
            },
            BranchProtectionDiffOperation::Delete => {
                requests.push(
                    Request::DeleteBranchProtection {
                        org: org.clone(),
                        repo: repo_name.clone(),
                        branch: self.name.clone(),
                    },
                );
            },
        }
        assert(requests.deep_view() =~= self.deep_view().requests(org@, repo_name@));
        requests
    }
}

impl UpdateRepoDiff {
    /// Lists the calls that change the repository.
    pub fn apply(&self) -> (requests: Vec<Request>)
        ensures
            requests.deep_view() == self.deep_view().requests(),
    {
        let ghost view = self.deep_view();
        let mut requests: Vec<Request> = Vec::new();
        if let Some((_, description)) = &self.description_diff {
            requests.push(
                Request::EditRepo {
                    org: self.org.clone(),
                    name: self.name.clone(),
                    description: description.clone(),
                },
            );
        }
        let ghost first = requests.deep_view();
        let ghost access = view.permission_diffs.map_values(
            |diff: RepoPermissionAssignmentDiffView| diff.request(view.org, view.name),
        );
        assert(first =~= first + access.take(0));
        for i in 0..self.permission_diffs.len()
            invariant
                view == self.deep_view(),
                access == view.permission_diffs.map_values(
                    |diff: RepoPermissionAssignmentDiffView| diff.request(view.org, view.name),
                ),
                requests.deep_view() == first + access.take(i as int),
        {
            let ghost before = requests.deep_view();
            requests.push(self.permission_diffs[i].apply(&self.org, &self.name));
            proof {
                assert(requests.deep_view() =~= before.push(access[i as int]));
                assert(requests.deep_view() =~= first + access.take(i + 1));
            }
        }
        assert(access.take(self.permission_diffs.len() as int) =~= access);
        let ghost second = requests.deep_view();
        let ghost diffs = view.branch_protection_diffs;
        assert(second =~= second + protection_requests(view.org, view.name, diffs.take(0)));
        for i in 0..self.branch_protection_diffs.len()
            invariant
                view == self.deep_view(),
                diffs == view.branch_protection_diffs,
                requests.deep_view() == second + protection_requests(
                    view.org,
                    view.name,
                    diffs.take(i as int),
                ),
        {
            let ghost before = requests.deep_view();
            let mut more = self.branch_protection_diffs[i].apply(&self.org, &self.name);
            let ghost added = more.deep_view();
            requests.append(&mut more);
            proof {
                let next = diffs.take(i + 1);
                assert(next.drop_last() =~= diffs.take(i as int));
                assert(next.last() == diffs[i as int]);
                assert(requests.deep_view() =~= before + added);
                assert(requests.deep_view() =~= second + protection_requests(
                    view.org,
                    view.name,
                    next,
                ));
            }
        }
        assert(diffs.take(self.branch_protection_diffs.len() as int) =~= diffs);
        assert(requests.deep_view() =~= view.requests());
        requests
    }
}

/// Adds the steps that make some calls.
fn push_sending(steps: &mut Vec<ApplyStep>, requests: Vec<Request>)
    ensures
        final(steps).deep_view() == old(steps).deep_view() + sending(requests.deep_view()),
{
    let ghost first = steps.deep_view();
    let ghost added = sending(requests.deep_view());
    assert(first =~= first + added.take(0));
    for i in 0..requests.len()
        invariant
            added == sending(requests.deep_view()),
            steps.deep_view() == first + added.take(i as int),
    {
        let ghost before = steps.deep_view();
        steps.push(ApplyStep::Send(requests[i].clone()));
        proof {
            assert(steps.deep_view() =~= before.push(added[i as int]));
            assert(steps.deep_view() =~= first + added.take(i + 1));
        }
    }
    assert(added.take(requests.len() as int) =~= added);
}

impl CreateRepoDiff {
    /// Lists the steps that create the repository.
    pub fn apply(&self) -> (steps: Vec<ApplyStep>)
        ensures
            steps.deep_view() == self.deep_view().steps(),
    {
        let ghost view = self.deep_view();
        let mut steps: Vec<ApplyStep> = Vec::new();
        steps.push(
            ApplyStep::Send(
                Request::CreateRepo {
                    org: self.org.clone(),
                    name: self.name.clone(),
                    description: self.description.clone(),
                },
            ),
        );
        assert(steps.deep_view() =~= seq![view.steps()[0]]);
        let mut permissions: Vec<Request> = Vec::new();
        for i in 0..self.permissions.len()
            invariant
                view == self.deep_view(),
                permissions.len() == i,
                forall|j: int|
                    0 <= j < i ==> #[trigger] permissions@[j].deep_view()
                        == view.permission_requests()[j],
        {
            let (collaborator, permission) = &self.permissions[i];
            let diff = RepoPermissionAssignmentDiff {
                collaborator: collaborator.clone(),
                diff: RepoPermissionDiff::Create(*permission),
            };
            permissions.push(diff.apply(&self.org, &self.name));
        }
        assert(permissions.deep_view() =~= view.permission_requests());
        push_sending(&mut steps, permissions);
        let ghost before_head = steps.deep_view();
        let ghost find = ApplyStepView::FindHead { org: view.org, repo: view.name };
        steps.push(ApplyStep::FindHead { org: self.org.clone(), repo: self.name.clone() });
        assert(steps.deep_view() =~= before_head + seq![find]);
        let ghost first = steps.deep_view();
        let ghost protections = view.branch_protections;
        assert(first =~= first + new_branch_steps(view.org, view.name, protections.take(0)));
        for i in 0..self.branch_protections.len()
            invariant
                view == self.deep_view(),
                protections == view.branch_protections,
                steps.deep_view() == first + new_branch_steps(
                    view.org,
                    view.name,
                    protections.take(i as int),
                ),
        {
            let (branch, protection) = &self.branch_protections[i];
            let ghost before = steps.deep_view();
            steps.push(
                ApplyStep::BranchAtHead {
                    org: self.org.clone(),
                    repo: self.name.clone(),
                    branch: branch.clone(),
                },
            );
            steps.push(
                ApplyStep::Send(
                    Request::UpdateBranchProtection {
                        org: self.org.clone(),
                        repo: self.name.clone(),
                        branch: branch.clone(),
                        protection: protection.clone(),
                    },
                ),
            );
            proof {
                let next = protections.take(i + 1);
                assert(next.drop_last() =~= protections.take(i as int));
                assert(next.last() == protections[i as int]);
                assert(steps.deep_view() =~= before + seq![
                    ApplyStepView::BranchAtHead {
                        org: view.org,
                        repo: view.name,
                        branch: branch@,
                    },
                    ApplyStepView::Send(
                        RequestView::UpdateBranchProtection {
                            org: view.org,
                            repo: view.name,
                            branch: branch@,
                            protection: protection.deep_view(),
                        },
                    ),
                ]);
                assert(steps.deep_view() =~= first + new_branch_steps(view.org, view.name, next));
            }
        }
        assert(protections.take(self.branch_protections.len() as int) =~= protections);
        assert(steps.deep_view() =~= view.steps());
        steps
    }
}

impl RepoDiff {
    /// Lists the steps that the change of a repository needs.
    pub fn apply(&self) -> (steps: Vec<ApplyStep>)
        ensures
            steps.deep_view() == self.deep_view().steps(),
    {
        match self {
            RepoDiff::Create(create) => create.apply(),
            RepoDiff::Update(update) => {
                let mut steps: Vec<ApplyStep> = Vec::new();
                push_sending(&mut steps, update.apply());
                assert(steps.deep_view() =~= self.deep_view().steps());
                steps
            },
        }
    }
}

impl Diff {
    /// Lists the steps that carry out the diff.
    pub fn steps(&self) -> (steps: Vec<ApplyStep>)
        ensures
            steps.deep_view() == self.deep_view().steps(),
    {
        let ghost view = self.deep_view();
        let mut steps: Vec<ApplyStep> = Vec::new();
        assert(steps.deep_view() =~= team_steps(view.team_diffs.take(0)));
        for i in 0..self.team_diffs.len()
            invariant
                view == self.deep_view(),
                steps.deep_view() == team_steps(view.team_diffs.take(i as int)),
        {
            proof {
                let next = view.team_diffs.take(i + 1);
                assert(next.drop_last() =~= view.team_diffs.take(i as int));
                assert(next.last() == self.team_diffs@[i as int].deep_view());
            }
            push_sending(&mut steps, self.team_diffs[i].apply());
        }
        assert(view.team_diffs.take(self.team_diffs.len() as int) =~= view.team_diffs);
        let ghost first = steps.deep_view();
        assert(first =~= first + repo_steps(view.repo_diffs.take(0)));
        for i in 0..self.repo_diffs.len()
            invariant
                view == self.deep_view(),
                steps.deep_view() == first + repo_steps(view.repo_diffs.take(i as int)),
        {
            let ghost before = steps.deep_view();
            let mut more = self.repo_diffs[i].apply();
            let ghost added = more.deep_view();
            steps.append(&mut more);
            proof {
                let next = view.repo_diffs.take(i + 1);
                assert(next.drop_last() =~= view.repo_diffs.take(i as int));
                assert(next.last() == self.repo_diffs@[i as int].deep_view());
                assert(steps.deep_view() =~= before + added);
                assert(steps.deep_view() =~= first + repo_steps(next));
            }
        }
        assert(view.repo_diffs.take(self.repo_diffs.len() as int) =~= view.repo_diffs);
        steps
    }
}

} // verus!
