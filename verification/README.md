# não me prenda janja

Self-hosted screen sharing for Discord, packaged as a Discord Activity. The server
serves the activity's pages, decides who may watch and share, and carries the video
through Cloudflare's Realtime SFU or through a relay of its own.

## Layout

- `src/` is the library: what the server decides, on plain values, verified with
  Verus.
  - `auth` session tokens, `config` the configuration and the first-run dialogue
  - `state`, `ws`, `connection` rooms, what connections may do in them, and the life
    of one connection
  - `sfu`, `pull` the books of the built-in relay, and a pull step by step
  - `http`, `discord`, `realtime` what outside services are asked and what their
    answers mean
  - `assets` which page answers a request
  - `text`, `table`, `search` text, keyed tables and looking things up
- `app/` is the program: sockets, timers, HTTP, files, JSON, the check that a public
  IP is one, and WebRTC connections. It performs what the library decides and hands
  back what happened.
- `tests/` runs the library.

Public proof functions state what holds of the library as a whole, such as that only
current participants join a room, that a duplicate pull is rejected, or that a share
code can be claimed once.
