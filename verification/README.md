# patmat

A build tool whose recipes are targets with prerequisites, run in dependency
order, with a live window showing each target's status and a form editor for
YAML configurations.

This crate is the verified core of the tool, written in Verus:

- `target` — a target's run: asked for its output, it hands out the output of
  an earlier successful run, or runs its dependencies and then its task, and
  records the outcome in its status.
- `utils` — the walk that lists every target of the dependency tree once, depth
  first; how a target's path is shown.
- `task` — the built-in tasks (terminal commands, git clone, checkout and pull,
  file-system work) and what each decides from what it observes.
- `task::tasks::clone::progress` — what a running clone reports.
- `configurator` — configuration trees, cursors into them, and the menu of an
  editor that lists every node.

`app/` holds the window, the asynchronous runtime, processes, files and the
git transport: it performs what the library decides.
