# minhook-cli

Trace function calls in a running Windows process: registers, return address, stack peek.
Cross-process, no injection required.

It uses the Windows Debug API (`DebugActiveProcess` and INT3 breakpoints), not true inline hooks.

```
minhook-cli --pid 1234 --addr 0x7ff67c001234
minhook-cli --pid 1234 --module foo.dll --rva 0x1b520
```

`Ctrl+C` detaches cleanly. Windows on x64 only. Run as admin if the target is elevated.

## Layout

- `src/` is the library, verified with Verus. It decides and computes, and makes no system call.
  - `session` is the tracer as a state machine: it says what to ask the system for, and takes the
    answer. `laws` states what holds of every session, whatever the system answers.
  - `context` is the register context of a stopped thread, on top of `bytes`.
  - `hex` reads the numbers of the command line, `target` picks what to trace, `module` finds a
    module by name.
  - `memory`, `report` and `text` judge reads and writes and put the printed lines together.
  - `win32` takes the codes of debug events and exceptions from the `windows` crate.
- `app/` is the program: the command line and one system call for each request of a session.
- `tests/` runs the library on examples.
