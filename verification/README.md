# grspr

A terminal workspace for reviewing pull-request-sized Git diffs: changed
files, streamed unified diffs with line numbers, hunk navigation, file
previews, a fuzzy file finder, ripgrep search, worktrees and persistent
review marks.

The library (`src/`) is verified with Verus. It holds the parsing of Git's
and ripgrep's output, the diff document, the review state, the state
machine of the workspace (keys, mouse, background reports and the effects
they ask for) and the text of every panel. The program in `app/` runs the
processes, reads and writes the review state as JSON, and paints the
screen.

| Module | Contents |
| --- | --- |
| `text` | splitting, trimming, decimal numbers, with their meaning as spec functions |
| `path` | paths compared by their components, as `Path` compares them |
| `diff` | change kinds, `--name-status -z` and `--numstat -z` listings, the streamed diff document |
| `worktree` | `git worktree list --porcelain` |
| `cli` | the revisions a review selects |
| `git` | the repository, pull-request status, ripgrep matches, process arguments |
| `review` | review marks and where they are stored |
| `app` | the workspace state machine and its laws |
| `ui` | the text of the header, panels, footer and overlays |
