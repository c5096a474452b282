//! Keeps the teams and repositories on GitHub as the team repository wants them.
//!
//! The wanted state ([`sync::SyncGitHub`]) is held against GitHub in one of two ways.
//! [`diff_run::DiffRun`] compares: it asks GitHub what is there and ends with a
//! [`diff::Diff`], which can be told ([`log`]) and carried out ([`apply_run::ApplyRun`]).
//! [`sync_run::SyncRun`] brings the repositories to the wanted state right away.
//!
//! No run talks to GitHub itself. Each names the call that it waits for ([`call::Request`]),
//! and whoever drives it makes the call and hands back the reply ([`call::Reply`]). What is
//! decided in between, and so every call that is made, is a function of the wanted state and
//! of the replies, and is verified.
//!
//! The `law_` modules state what holds of the library as a whole:
//!
//! - Carrying out the difference brings every team and repository that it is about to the wanted
//!   state and leaves all others alone ([`law_world`]). This holds provided that what was read is
//!   the truth and ids and usernames go together one to one; that no two diffs are about the same
//!   team or the same repository; that no repository that is there names a branch twice; and that
//!   a new team starts without members and a new repository with nothing but its default branch.
//! - Synchronizing does so for the repositories ([`law_world`]), provided that GitHub answers
//!   with the truth and knows each of them by the wanted name; that no two of them have the same
//!   name; that none names a branch twice; and, as to branches that are missing, that the main
//!   branch has a head.
//! - Where nothing is named twice and what is read is the truth, there is afterwards nothing left
//!   to do about the members of a team, or about a repository but its name ([`law_teams`],
//!   [`law_repos`]).
//! - A comparison only reads, and finds the difference, provided that all usernames are known and
//!   the main branch has a head wherever a branch is missing ([`law_diff`]).
//! - Which calls are made, and in which order ([`law_apply`], [`law_sync`]); and that the first
//!   call that fails is the last, and its error the result ([`law_failure`]).
//!
//! Others state of each part, for all inputs, what it gives: the rules ([`law_rules`]), the GitHub
//! teams, people and organizations that are managed ([`law_mirrors`]), the access that is given and
//! taken away ([`law_grants`]), what is found of branches, repositories and teams
//! ([`law_changes`]), the calls ([`law_calls`]) and the lines that are told ([`law_lines`],
//! [`law_text`]), on lists ([`law_lists`]) and on views ([`law_views`]).
pub mod api;
pub mod apply;
pub mod apply_run;
pub mod branches;
pub mod call;
pub mod diff;
pub mod diff_run;
pub mod law_access;
pub mod law_apply;
pub mod law_branches;
pub mod law_calls;
pub mod law_changes;
pub mod law_converge;
pub mod law_diff;
pub mod law_failure;
pub mod law_grants;
pub mod law_lines;
pub mod law_lists;
pub mod law_mirrors;
pub mod law_repos;
pub mod law_rules;
pub mod law_sync;
pub mod law_teams;
pub mod law_text;
pub mod law_views;
pub mod law_world;
pub mod lists;
pub mod log;
pub mod permissions;
pub mod repos;
pub mod rules;
pub mod sync;
pub mod sync_run;
pub mod team_data;
pub mod teams;
pub mod text;
