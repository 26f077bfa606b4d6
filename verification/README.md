# treehouse_core

A pool of reusable git worktrees, for agents and people who work on one
repository in parallel. A worktree is acquired, used, returned and used again;
what nobody needs any more is pruned, reclaimed or destroyed, and never while
somebody has it.

`src/` is the library, written and verified with Verus. It decides and
computes: which worktree is handed out, when a lease holds, what may be removed
and what is only reported, what the state file and the output say. It does no
input or output of its own.

`app/` is the `treehouse` program around it: the command line, files, locks,
processes and git.

| module | what it is about |
|---|---|
| `state`, `state_file`, `lease`, `reservation` | entries of a pool, healing and recovery, leases, owner tokens, the JSON file |
| `pool`, `lock`, `hooks` | acquiring, returning, showing worktrees; waiting for the lock; reports of hooks |
| `worktree`, `destroy`, `prune`, `gc`, `reclaim` | what stands against removing a worktree, and removal in two phases |
| `config`, `env`, `discovery` | settings, surroundings, finding the pools of a user |
| `git`, `process`, `updater` | what answers of git, process tables and releases mean |
| `result`, `format`, `doctor`, `run`, `cli` | results as JSON, TOON and text; the health report; running commands; arguments |
| `text`, `path`, `time`, `json`, `copies` | texts, paths, instants, JSON values, copies |

Some promises that are proved, each as a `law_...` proof function or in an
`ensures` clause:

- A worktree is handed out only while nobody has it, and not again while its
  lease is there or its owner lives.
- A conditional return goes through once, and never on the identity of an
  earlier lease.
- Work that fails under the lock of a pool comes back with its own error.
- Healing drops no lease, and does nothing the second time.
- A valid lease is never reclaimed; a process keeps its worktree even past the
  end of the lease.
- A worktree that was acquired again is not destroyed; one that is skipped gets
  its owner back.
- What is written to the state file is read back.
- Hooks of a repository are ignored.
- A shell that was started finds nothing on its output; a lease prints its path
  alone.

Calls into `chrono`, `humantime`, `rand`, `serde_json`, `sha2` and `toon`, and
three functions of the standard library, stand behind small functions marked
`external_body`. Their comments say what is believed of them.
