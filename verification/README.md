# team_sync

Keeps the teams and repositories on GitHub as the team repository wants them.

- `src/` is the library, verified with Verus. It compares the wanted state with GitHub, tells
  and carries out the differences, and synchronizes repositories. It makes no call itself: each
  run names the call that it waits for and goes on with the reply.
- `src/law_*.rs` state what holds of the library as a whole, such as that carrying out the
  difference brings every team and repository that it is about to the wanted state and leaves
  all others alone. `src/lib.rs` lists them with their provisos: for this one, that what was
  read is the truth, that no two diffs are about the same team or repository, that no branch is
  named twice, and that what is created starts out bare.
- `tests/` runs the library, among others against a GitHub that is kept in memory.
- `app/` drives the runs against a client of the GitHub API and writes the log.
