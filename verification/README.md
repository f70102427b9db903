# git_master

Git Master shows the status of every Git repository directly below a
workspace directory: current branch, clean or dirty working tree, and how the
current branch compares with each remote. It can fetch every remote of every
repository, switch every repository to its main branch, show a repository's
details and history, and draw the history of a repository and its submodules
as a commit graph.

The library (`src/`) holds the logic, with contracts proved by Verus:

- `models`, `text`, `sets`, `sorting` — the data read from repositories,
  text helpers, an ordered set of texts, and case-insensitive stable ordering.
- `columns`, `layout` — branch columns and the commit canvas layout (lanes,
  cards, HEAD cards moved clear of other cards, connections).
- `git_commands`, `repo_logic` — the `git` command lines and the decisions
  taken from what Git reports (main branch, upstream names, status counts).
- `app_state`, `operations`, `batch` — the window's state machine: selections,
  stale results, branch and remote operations, batch runs.
- `rpc`, `view_tree` — the test-control endpoint's request handling and the
  description of what the window shows.
- `theme` — colors.

`app/` is a command-line front end: it reads repositories with git2, runs
`git` (fetch, reset, checkout, pull, push, submodule initialization, batch
runs), serves the test-control endpoint, and keeps the floating-point canvas
state. Its commands are listed at the top of `app/main.rs`.
