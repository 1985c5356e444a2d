# muzzle

Toggle the Zscaler launchd services of a macOS session off and on, and
report their state.

* `src/` is the verified library (Verus): the service list, the launchctl
  argument lists and how their failures are read, the reader of
  `launchctl print-disabled` output, the per-service `off` / `on` state
  machine and the whole-run machine that strings the services together,
  when to give up on a slow subprocess, the printed text, and uid
  handling. Each public function has a contract; the `law_*` proof
  functions state properties that span calls.
* `app/` is the command-line program around it: argument parsing (clap),
  spawning and polling launchctl, sudo re-execution, colours, the status
  table and JSON.
* `tests/` runs the library on concrete values.
