# swarm_monitor

A terminal dashboard for a swarm of coding agents. Each agent works in a git worktree of its own;
the dashboard shows one lane per worktree, what its agents and their sub-agents are doing, and how
its Compose stack is.

- `src/` is the library, verified with Verus: reading sessions, the state of the swarm, and what
  is shown of it.
- `app/` is the program around it: files, the container engine and the terminal.
- `tests/` runs the library.

```
<assistant>-swarm [path of the lead repository]
```

The program is installed under the name of the assistant whose sessions it watches, with `-swarm`
behind it: `helper-swarm` watches `~/.helper/projects/`. The environment can name another:
`SWARM_ASSISTANT` is the name of the directory, without the dot, and `SWARM_ASSISTANT_TITLE` is the
name that is shown. Worktrees are found through `.git/worktrees/`, and a lane's Compose project
through `COMPOSE_PROJECT_NAME` in `docker/.env`.

| Key     | Action                                           |
|---------|--------------------------------------------------|
| `↑` `↓` | Select a lane, or scroll its details             |
| `Enter` | Open the details of the selected lane            |
| `Esc`   | Back to the list                                 |
| `q`     | Quit                                             |
