# neko

A command line tool that puts a port of a sandbox, or of this machine, on the
web, and keeps the sandbox's disk in checkpoints.

The library under `src/` decides; the program under `app/` acts. Everything in
the library is verified with Verus: each function states what it returns, and
public proof functions state what holds of several of them together.

- `store`, `commands`, `run`: the index of computers and checkpoints, and what
  the commands and a boot do to it. The index is an SQLite database; what is
  stated of two calls in a row holds while nobody else writes to it.
- `wire`, `connector`, `relay`, `headers`, `tunnel`: the frames of a tunnel, the
  requests and sockets that are open on it, where they go, and what is answered.
- `term`: the web terminal page. `login`: signing in, sessions and workspaces.
- `forward`, `mount`, `dist`, `paths`, `upgrade`, `github`, `mascot`: arguments,
  settings, places, releases and what is printed.
- `text`, `number`, `calendar`, `json`: what the others are stated over.

Functions marked `external_body` call other crates or the standard library.
Their contracts are believed, not proved, and each says which call it makes.
