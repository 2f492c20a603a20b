# Supaa

Focus mode for Hyprland: a daemon gives one application most of the CPU, the I/O and the memory, and
throttles (or freezes) everything else.

| Mode    | CPU and I/O, focus / background | Memory of the background | Freezes | Locks workspaces |
|---------|---------------------------------|--------------------------|---------|------------------|
| Normal  | 100 / 100                       | no limit                 | no      | no               |
| Supaa   | 800 / 20                        | 75 %                     | no      | no               |
| Supaa++ | 10000 / 1                       | 50 %                     | yes     | yes              |

## Layout

- `src/` is the library, proved with Verus. It holds every decision: which processes are protected,
  what a mode takes, what a command changes, when the state file is dirty, how a crash is undone, what
  the command line and the window show.
- `app/` is the programs around it: `supaad`, `supaa` and `supaa-ui`. They read, write, send and draw.
- `tests/` runs the library, with a machine in memory under the daemon.

## What is proved

- Only a process that a scan showed to be neither protected nor in the focus tree is ever stopped, and
  none that is stopped already (`Daemon::next`).
- What was stopped is remembered until it is thawed or gone (`task::law_stopped_is_remembered`).
- After a change to a mode other than Supaa++, a restoration or a shutdown, only processes whose thawing
  failed are still frozen (`plan::law_restoring_leaves_failures_only`).
- Whatever the system replies, a finished command has changed what its entry in `plan::effect` says.
- While a mode change, a restoration or a shutdown touches the system, the state file is dirty, provided
  that its first save succeeded or that the file was dirty before (`plan::law_interruption_is_noticed`).
  A failed save stops nothing.
- What is to be stopped is listed in the state file first, and what is stopped stays listed there as long
  as the file is dirty, provided that the last save succeeded (`Daemon::filed`). So a recovery thaws what
  a crash left stopped (`recovery::law_crash_is_undone_from_the_file`).
- A recovery thaws every process that the state file lists, takes the directories down and saves a clean
  state only at the end (`recovery::law_recovery_*`).
- Where a lock had to bind the workspace keys, every binding has been asked back when the mode is left or
  everything is restored (`lock::law_restoring_takes_every_binding_back`).

The clock, the delivery of signals and one function on strings are trusted; each has a comment that
says what is claimed of it.
