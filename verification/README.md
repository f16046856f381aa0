# nightcrow

A session daemon for agentic coding: a git diff viewer and terminal panes,
served to an attached terminal and to a browser.

`src/` is the library. It holds what nightcrow decides and computes, and every
function states in its contract what it returns or changes; Verus proves it.

- `cli`: what the commands do, stage by stage.
- `daemon`: frames, the instance lock, the socket, attaching, and the clients of
  a session.
- `runtime`: the panes and their emulators, the reading of a repository's
  status, and the watching of the file tree.
- `git`: changed files, the commit log, directory listings, cloning.
- `plugin`: what plugins are told, what they may do, and which are installed.
- `ui`, `input`, `application`, `config`: rows, keys, the loop of an attached
  terminal, and the settings they follow.
- `platform`: logs.
- `text`, `paths`, `native`, `textmap`, `sorting`: what the rest is written with.

Functions whose names start with `law_` state what holds of several of these
together. The few things that are taken on trust are the calls into other
crates; each is declared beside the code that needs it, with what is claimed of
it.

`app/` touches the machine: files, sockets, processes, threads, the terminal. It
performs what the library asks for and reports what came of it.

`tests/` runs the library on concrete values.
