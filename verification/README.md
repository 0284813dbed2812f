# tv

Terminal sessions that people and agents share. A daemon manages sessions (a PTY with a terminal
emulator each); agents list them, read their screens and send them keys through a small CLI, and
the user of a session stays in control through permission prompts.

## Layout

- `src/` is the library: everything that decides or computes, verified with Verus.
  - `keys`, `duration`: the key syntax of `tv exec`
  - `types`, `cli`, `config`, `client`: messages, commands, settings and output
  - `ipc`: message framing and the state of a session's connection
  - `auth`, `server`: the daemon's admission, routing and cache
  - `session`: a terminal session; below it `text` (screen and scrollback), `dispatch`
    (permissions and queues), `commands`, `prompt` (the permission prompt) and `terminal` (input
    encoding, selection, cell looks)
  - `strings`, `seqs`: helpers
- `tests/` runs the library.
- `app/` is the program around it: arguments, sockets, the PTY, the event loops and drawing.

Times are handed in as numbers, and what is to be sent or drawn comes back as values, so that the
library itself does no I/O.
