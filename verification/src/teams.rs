//! The teams on GitHub: what is wanted and what is there.
use vstd::prelude::*;

use crate::api::{Team, TeamMember, TeamMemberView, TeamRole, TeamView};
use crate::diff::{
    CreateTeamDiff, CreateTeamDiffView, DeleteTeamDiff, DeleteTeamDiffView, EditTeamDiff,
    EditTeamDiffView, MemberDiff, TeamDiff, TeamDiffView,
};
use crate::lists::{
    contains_id, contains_name, distinct, distinct_names, find_id, find_name, latest, lookup,
    unclaimed,
};
use crate::rules::{bot_team, is_bot_team, DEFAULT_DESCRIPTION, DEFAULT_PRIVACY};
use crate::sync::{github_teams, role_of, SyncGitHub, SyncGitHubView};
use crate::team_data::{GitHubTeam, GitHubTeamView};

verus! {

/// A team on GitHub with its members, by their ids.
#[derive(PartialEq, Debug)]
pub struct ActualTeam {
    pub team: Team,
    pub members: Vec<(usize, TeamMember)>,
}

pub struct ActualTeamView {
    pub team: TeamView,
    pub members: Seq<(usize, TeamMemberView)>,
}

impl DeepView for ActualTeam {
    type V = ActualTeamView;

    open spec fn deep_view(&self) -> ActualTeamView {
        ActualTeamView { team: self.team.deep_view(), members: self.members.deep_view() }
    }
}

/// Whether the usernames of all members of a team are known.
pub open spec fn members_known(sync: SyncGitHubView, team: GitHubTeamView) -> bool {
    forall|i: int|
        0 <= i < team.members.len() ==> sync.usernames.contains_key(#[trigger] team.members[i])
}

/// A member of a new team: the username and the role.
pub open spec fn new_member(sync: SyncGitHubView, org: Seq<char>, member: usize) -> (
    Seq<char>,
    TeamRole,
) {
    (sync.usernames[member], role_of(sync.org_owners, org, member))
}

/// What is to be done about one member that a team is to have.
pub open spec fn member_diff(wanted: TeamRole, actual: Option<TeamMemberView>) -> MemberDiff {
    match actual {
        Some(member) => if member.role == wanted {
            MemberDiff::Noop
        } else {
            MemberDiff::ChangeRole((member.role, wanted))
        },
        None => MemberDiff::Create(wanted),
    }
}

/// What is to be done about the members that a team is to have, in their order. A member that
/// is there is held against the first wanted one of its id only.
pub open spec fn wanted_member_diffs(
    sync: SyncGitHubView,
    org: Seq<char>,
    members: Seq<usize>,
    actual: Seq<(usize, TeamMemberView)>,
) -> Seq<(Seq<char>, MemberDiff)>
    decreases members.len(),
{
    if members.len() == 0 {
        Seq::empty()
    } else {
        let earlier = members.drop_last();
        let member = members.last();
        let found = if earlier.contains(member) {
            None
        } else {
            lookup(actual, member)
        };
        wanted_member_diffs(sync, org, earlier, actual).push(
            (
                sync.usernames[member],
                member_diff(role_of(sync.org_owners, org, member), found),
            ),
        )
    }
}

/// What is to be done about all members of a team: those that it is to have, then those that
/// are to be deleted. Where an id is listed more than once, its last entry counts.
pub open spec fn member_diffs(
    sync: SyncGitHubView,
    wanted: GitHubTeamView,
    actual: Seq<(usize, TeamMemberView)>,
) -> Seq<(Seq<char>, MemberDiff)> {
    wanted_member_diffs(sync, wanted.org, wanted.members, actual) + unclaimed(
        latest(actual),
        wanted.members,
    ).map_values(|entry: (usize, TeamMemberView)| (entry.1.username, MemberDiff::Delete))
}

/// What is to be done about a team, given what is there of it.
pub open spec fn team_diff(
    sync: SyncGitHubView,
    wanted: GitHubTeamView,
    actual: Option<ActualTeamView>,
) -> TeamDiffView {
    match actual {
        None => TeamDiffView::Create(
            CreateTeamDiffView {
                org: wanted.org,
                name: wanted.name,
                description: DEFAULT_DESCRIPTION@,
                privacy: DEFAULT_PRIVACY,
                members: wanted.members.map_values(
                    |member: usize| new_member(sync, wanted.org, member),
                ),
            },
        ),
        Some(actual) => TeamDiffView::Edit(
            EditTeamDiffView {
                org: wanted.org,
                name: actual.team.name,
                name_diff: if actual.team.name == wanted.name {
                    None
                } else {
                    Some(wanted.name)
                },
                description_diff: if actual.team.description == DEFAULT_DESCRIPTION@ {
                    None
                } else {
                    Some((actual.team.description, DEFAULT_DESCRIPTION@))
                },
                privacy_diff: if actual.team.privacy == DEFAULT_PRIVACY {
                    None
                } else {
                    Some((actual.team.privacy, DEFAULT_PRIVACY))
                },
                member_diffs: member_diffs(sync, wanted, actual.members),
            },
        ),
    }
}

/// The names that the GitHub teams of an organization are to have.
pub open spec fn names_in_org(teams: Seq<GitHubTeamView>, org: Seq<char>) -> Seq<Seq<char>> {
    teams.filter(|team: GitHubTeamView| team.org == org).map_values(
        |team: GitHubTeamView| team.name,
    )
}

/// The listed teams of an organization that are in nobody's charge: neither wanted nor one of
/// the bots' teams. Each is named once.
pub open spec fn stray_team_names(
    teams: Seq<GitHubTeamView>,
    org: Seq<char>,
    listed: Seq<Seq<char>>,
) -> Seq<Seq<char>> {
    distinct(listed).filter(
        |name: Seq<char>| !names_in_org(teams, org).contains(name) && !bot_team(name),
    )
}

/// The teams that are to be deleted. Only the teams of the `rust-lang` organization are, and
/// only if the organization has a managed team, so that its teams were listed.
pub open spec fn team_deletions(
    sync: SyncGitHubView,
    listings: Seq<(Seq<char>, Seq<Seq<char>>)>,
) -> Seq<TeamDiffView> {
    match lookup(listings, "rust-lang"@) {
        Some(listed) => stray_team_names(
            github_teams(sync.teams),
            "rust-lang"@,
            listed,
        ).map_values(
            |name: Seq<char>| TeamDiffView::Delete(DeleteTeamDiffView { org: "rust-lang"@, name }),
        ),
        None => Seq::empty(),
    }
}

/// Lists the members that are there, one entry for each id.
fn actual_members(entries: &Vec<(usize, TeamMember)>) -> (members: Vec<(usize, TeamMember)>)
    ensures
        members.deep_view() == latest(entries.deep_view()),
{
    let ghost all = entries.deep_view();
    let mut members: Vec<(usize, TeamMember)> = Vec::new();
    assert(members.deep_view() =~= latest(all.take(0)));
    for i in 0..entries.len()
        invariant
            all == entries.deep_view(),
            members.deep_view() == latest(all.take(i as int)),
    {
        let ghost before = members.deep_view();
        let ghost keep = |entry: (usize, TeamMemberView)| !seq![all[i as int].0].contains(entry.0);
        let mut kept: Vec<(usize, TeamMember)> = Vec::new();
        assert(kept.deep_view() =~= before.take(0).filter(keep)) by {
            reveal(Seq::filter);
        }
        for j in 0..members.len()
            invariant
                i < entries.len(),
                all == entries.deep_view(),
                before == members.deep_view(),
                keep == (|entry: (usize, TeamMemberView)|
                    !seq![all[i as int].0].contains(entry.0)),
                kept.deep_view() == before.take(j as int).filter(keep),
        {
            let ghost so_far = kept.deep_view();
            proof {
                before.take(j as int).lemma_filter_push(before[j as int], keep);
                assert(before.take(j + 1) =~= before.take(j as int).push(before[j as int]));
                assert(seq![all[i as int].0][0] == all[i as int].0);
            }
            if members[j].0 != entries[i].0 {
                kept.push((members[j].0, members[j].1.clone()));
                assert(kept.deep_view() =~= so_far.push(before[j as int]));
            }
        }
        assert(before.take(members.len() as int) =~= before);
        let ghost rest = kept.deep_view();
        kept.push((entries[i].0, entries[i].1.clone()));
        members = kept;
        proof {
            assert(members.deep_view() =~= rest.push(all[i as int]));
            assert(all.take(i + 1).drop_last() =~= all.take(i as int));
            assert(all.take(i + 1).last() == all[i as int]);
        }
    }
    assert(all.take(entries.len() as int) =~= all);
    members
}

impl SyncGitHub {
    /// Tells whether the usernames of all members of a team are known.
    pub fn knows_members(&self, github_team: &GitHubTeam) -> (known: bool)
        ensures
            known == members_known(self.deep_view(), github_team.deep_view()),
    {
        let ghost usernames = self.deep_view().usernames;
        for i in 0..github_team.members.len()
            invariant
                usernames == self.deep_view().usernames,
                forall|j: int|
                    0 <= j < i ==> usernames.contains_key(#[trigger] github_team.members@[j]),
        {
            if !self.usernames_cache.contains_key(&github_team.members[i]) {
                assert(!usernames.contains_key(github_team.deep_view().members[i as int]));
                return false;
            }
        }
        true
    }

    fn username(&self, member: usize) -> (name: String)
        requires
            self.deep_view().usernames.contains_key(member),
        ensures
            name@ == self.deep_view().usernames[member],
    {
        match self.usernames_cache.get(&member) {
            Some(name) => name.clone(),
            None => {
                assert(false);
                String::new()
            },
        }
    }

    fn diff_members(&self, github_team: &GitHubTeam, actual: &Vec<(usize, TeamMember)>) -> (diffs:
        Vec<(String, MemberDiff)>)
        requires
            members_known(self.deep_view(), github_team.deep_view()),
        ensures
            diffs.deep_view() == member_diffs(
                self.deep_view(),
                github_team.deep_view(),
                actual.deep_view(),
            ),
    {
        let ghost sync = self.deep_view();
        let ghost org = github_team.org@;
        let ghost there = actual.deep_view();
        let members = &github_team.members;
        let mut diffs: Vec<(String, MemberDiff)> = Vec::new();
        let mut claimed: Vec<usize> = Vec::new();
        assert(diffs.deep_view() =~= wanted_member_diffs(sync, org, members@.take(0), there));
        assert(claimed@ =~= members@.take(0));
        for i in 0..members.len()
            invariant
                members_known(sync, github_team.deep_view()),
                sync == self.deep_view(),
                org == github_team.org@,
                members == github_team.members,
                there == actual.deep_view(),
                claimed@ == members@.take(i as int),
                diffs.deep_view() == wanted_member_diffs(
                    sync,
                    org,
                    members@.take(i as int),
                    there,
                ),
        {
            let member = members[i];
            assert(sync.usernames.contains_key(github_team.deep_view().members[i as int]));
            let expected_role = self.expected_role(&github_team.org, member);
            let username = self.username(member);
            let found = if contains_id(&claimed, member) {
                None
            } else {
                find_id(actual, member)
            };
            let diff = match found {
                Some(actual_member) => if actual_member.role != expected_role {
                    MemberDiff::ChangeRole((actual_member.role, expected_role))
                } else {
                    MemberDiff::Noop
                },
                None => MemberDiff::Create(expected_role),
            };
            let ghost before = diffs.deep_view();
            let ghost name = username@;
            diffs.push((username, diff));
            claimed.push(member);
            proof {
                let next = members@.take(i + 1);
                assert(next.drop_last() =~= members@.take(i as int));
                assert(next.last() == member);
                assert(claimed@ =~= next);
                assert(diff == member_diff(expected_role, found.deep_view()));
                assert(diffs.deep_view() =~= before.push((name, diff)));
            }
        }
        assert(members@.take(members.len() as int) =~= members@);
        let ghost first = diffs.deep_view();
        let remaining = actual_members(actual);
        let ghost there = remaining.deep_view();
        let ghost keep = |entry: (usize, TeamMemberView)| !members@.contains(entry.0);
        let ghost deletion = |entry: (usize, TeamMemberView)|
            (entry.1.username, MemberDiff::Delete);
        assert(there.take(0).filter(keep) =~= Seq::empty()) by {
            reveal(Seq::filter);
        }
        assert(diffs.deep_view() =~= first + there.take(0).filter(keep).map_values(deletion));
        for i in 0..remaining.len()
            invariant
                there == remaining.deep_view(),
                keep == (|entry: (usize, TeamMemberView)| !members@.contains(entry.0)),
                deletion == (|entry: (usize, TeamMemberView)|
                    (entry.1.username, MemberDiff::Delete)),
                diffs.deep_view() == first + there.take(i as int).filter(keep).map_values(
                    deletion,
                ),
        {
            let ghost before = diffs.deep_view();
            let ghost kept = there.take(i as int).filter(keep);
            proof {
                there.take(i as int).lemma_filter_push(there[i as int], keep);
                assert(there.take(i + 1) =~= there.take(i as int).push(there[i as int]));
            }
            if !contains_id(members, remaining[i].0) {
                diffs.push((remaining[i].1.username.clone(), MemberDiff::Delete));
                proof {
                    let new = deletion(there[i as int]);
                    assert(diffs.deep_view() =~= before.push(new));
                    assert(kept.push(there[i as int]).map_values(deletion) =~= kept.map_values(
                        deletion,
                    ).push(new));
                    assert(diffs.deep_view() =~= first + there.take(i + 1).filter(
                        keep,
                    ).map_values(deletion));
                }
            }
        }
        assert(there.take(remaining.len() as int) =~= there);
        diffs
    }

    /// Compares a team with what is there of it.
    pub fn diff_team(&self, github_team: &GitHubTeam, actual: &Option<ActualTeam>) -> (diff:
        TeamDiff)
        requires
            members_known(self.deep_view(), github_team.deep_view()),
        ensures
            diff.deep_view() == team_diff(
                self.deep_view(),
                github_team.deep_view(),
                actual.deep_view(),
            ),
    {
        let ghost sync = self.deep_view();
        let ghost wanted = github_team.deep_view();
        match actual {
            None => {
                let mut members: Vec<(String, TeamRole)> = Vec::new();
                for i in 0..github_team.members.len()
                    invariant
                        members_known(sync, wanted),
                        sync == self.deep_view(),
                        wanted == github_team.deep_view(),
                        members.len() == i,
                        forall|j: int|
                            0 <= j < i ==> #[trigger] members@[j].deep_view() == new_member(
                                sync,
                                wanted.org,
                                wanted.members[j],
                            ),
                {
                    let member = github_team.members[i];
                    assert(sync.usernames.contains_key(wanted.members[i as int]));
                    let expected_role = self.expected_role(&github_team.org, member);
                    members.push((self.username(member), expected_role));
                }
                assert(members.deep_view() =~= wanted.members.map_values(
                    |member: usize| new_member(sync, wanted.org, member),
                ));
                TeamDiff::Create(
                    CreateTeamDiff {
                        org: github_team.org.clone(),
                        name: github_team.name.clone(),
                        description: DEFAULT_DESCRIPTION.to_owned(),
                        privacy: DEFAULT_PRIVACY,
                        members,
                    },
                )
            },
            Some(actual) => {
                let team = &actual.team;
                let name_diff = if team.name != github_team.name {
                    Some(github_team.name.clone())
                } else {
                    None
                };
                let default_description = DEFAULT_DESCRIPTION.to_owned();
                let description_diff = if team.description != default_description {
                    Some((team.description.clone(), default_description))
                } else {
                    None
                };
                let privacy_diff = if team.privacy != DEFAULT_PRIVACY {
                    Some((team.privacy, DEFAULT_PRIVACY))
                } else {
                    None
                };
                let member_diffs = self.diff_members(github_team, &actual.members);
                TeamDiff::Edit(
                    EditTeamDiff {
                        org: github_team.org.clone(),
                        name: team.name.clone(),
                        name_diff,
                        description_diff,
                        privacy_diff,
                        member_diffs,
                    },
                )
            },
        }
    }

    /// Lists the teams that are to be deleted. `listings` holds the teams that the
    /// organizations have.
    pub fn diff_deleted_teams(&self, listings: &Vec<(String, Vec<String>)>) -> (diffs: Vec<
        TeamDiff,
    >)
        ensures
            diffs.deep_view() == team_deletions(self.deep_view(), listings.deep_view()),
    {
        let ghost sync = self.deep_view();
        let ghost teams = github_teams(sync.teams);
        let org = "rust-lang".to_owned();
        let mut diffs: Vec<TeamDiff> = Vec::new();
        match find_name(listings, &org) {
            Some(listed) => {
                let flat = SyncGitHub::github_teams(&self.teams);
                let ghost in_org = |team: GitHubTeamView| team.org == "rust-lang"@;
                let ghost name_of = |team: GitHubTeamView| team.name;
                let mut names: Vec<String> = Vec::new();
                assert(teams.take(0).filter(in_org) =~= Seq::empty()) by {
                    reveal(Seq::filter);
                }
                assert(names.deep_view() =~= teams.take(0).filter(in_org).map_values(name_of));
                for i in 0..flat.len()
                    invariant
                        org@ == "rust-lang"@,
                        teams == flat.deep_view(),
                        in_org == (|team: GitHubTeamView| team.org == "rust-lang"@),
                        name_of == (|team: GitHubTeamView| team.name),
                        names.deep_view() == teams.take(i as int).filter(in_org).map_values(
                            name_of,
                        ),
                {
                    let ghost before = names.deep_view();
                    let ghost kept = teams.take(i as int).filter(in_org);
                    proof {
                        teams.take(i as int).lemma_filter_push(teams[i as int], in_org);
                        assert(teams.take(i + 1) =~= teams.take(i as int).push(teams[i as int]));
                    }
                    if flat[i].org == org {
                        names.push(flat[i].name.clone());
                        proof {
                            assert(names.deep_view() =~= before.push(teams[i as int].name));
                            assert(kept.push(teams[i as int]).map_values(name_of)
                                =~= kept.map_values(name_of).push(teams[i as int].name));
                        }
                    }
                }
                assert(teams.take(flat.len() as int) =~= teams);
                assert(names.deep_view() == names_in_org(teams, "rust-lang"@));
                let ghost named = listed.deep_view();
                let listed = distinct_names(listed);
                let ghost all = listed.deep_view();
                let ghost stray = |name: Seq<char>|
                    !names_in_org(teams, "rust-lang"@).contains(name) && !bot_team(name);
                let ghost deletion = |name: Seq<char>|
                    TeamDiffView::Delete(DeleteTeamDiffView { org: "rust-lang"@, name });
                assert(all.take(0).filter(stray) =~= Seq::empty()) by {
                    reveal(Seq::filter);
                }
                assert(diffs.deep_view() =~= all.take(0).filter(stray).map_values(deletion));
                for i in 0..listed.len()
                    invariant
                        org@ == "rust-lang"@,
                        all == listed.deep_view(),
                        names.deep_view() == names_in_org(teams, "rust-lang"@),
                        stray == (|name: Seq<char>|
                            !names_in_org(teams, "rust-lang"@).contains(name) && !bot_team(name)),
                        deletion == (|name: Seq<char>|
                            TeamDiffView::Delete(DeleteTeamDiffView { org: "rust-lang"@, name })),
                        diffs.deep_view() == all.take(i as int).filter(stray).map_values(
                            deletion,
                        ),
                {
                    let ghost before = diffs.deep_view();
                    let ghost kept = all.take(i as int).filter(stray);
                    proof {
                        all.take(i as int).lemma_filter_push(all[i as int], stray);
                        assert(all.take(i + 1) =~= all.take(i as int).push(all[i as int]));
                    }
                    if !contains_name(&names, &listed[i]) && !is_bot_team(&listed[i]) {
                        diffs.push(
                            TeamDiff::Delete(
                                DeleteTeamDiff { org: org.clone(), name: listed[i].clone() },
                            ),
                        );
                        proof {
                            assert(diffs.deep_view() =~= before.push(deletion(all[i as int])));
                            assert(kept.push(all[i as int]).map_values(deletion)
                                =~= kept.map_values(deletion).push(deletion(all[i as int])));
                        }
                    }
                }
                assert(all.take(listed.len() as int) =~= all);
                assert(lookup(listings.deep_view(), "rust-lang"@) == Some(named));
            },
            None => {
                assert(diffs.deep_view() =~= Seq::empty());
            },
        }
        diffs
    }
}

} // verus!
