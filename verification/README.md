# mincontainer

A minimal Linux container runtime whose decisions are verified with Verus.

A container gets PID, mount, UTS, IPC and network namespaces of its own, a root file
system entered by `pivot_root`, limits on memory, CPU and processes by cgroups v2, a
veth pair into a bridge if it asks for a network, and a seccomp filter; dangerous
capabilities are dropped. Containers can be created, started, stopped, listed and
removed, or run once.

    mincontainer run --rootfs ./alpine --memory 64M -- /bin/sh

## Layout

- `src/` is the library. It touches nothing: it names one operation of the host at a
  time (`host`), and goes on from the answer. Operations that follow each other without
  a decision are a plan (`plan`).
  - `capabilities`, `seccomp`, `rootfs`, `network`, `cgroups`: what isolates a
    container.
  - `container`: the three processes of a run. `state`: what is kept of containers.
    `commands`: the commands, from their arguments to their exit codes.
  - `guarantees`: what holds of every run whatever the host answers, such as that a
    command runs only after the container is isolated. `lifecycle`: what holds of a
    container that is kept, such as that it can be stopped once it is started. `endings`:
    that everything comes to an end.
  - `config`, `error`, `clock`, `stats`, `scan`, `text`: what the others are made of.
- `app/` is the program: it parses the command line, does the operations and prints
  times and sizes.
- `tests/` runs the library against hosts made up for it.

## What is trusted

The contracts of the functions that call other crates are believed, not proved. Each of
them says in its comment what it claims: `config::new_id` (uuid), the functions of
`clock` that read the time, `rootfs` for `makedev` (nix), and `seccomp` for the system
call numbers (libc) and for building and compiling a filter (seccompiler).
