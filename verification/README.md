# session-kanban

A local board for the sessions of a coding agent. The agent keeps one event stream per session
(`projects/<encoded directory>/<uuid>.jsonl`) and one todo file per session
(`todos/<uuid>-agent-<uuid>.json`) in its directory at home. The program follows these files, and
serves what they say of every session on localhost: its status, and its cards in the columns TODO,
DOING and DONE.

- `src/` is the library, verified with Verus: reading events, the status of a session, the checklist
  scraper, the store and its order of urgency, following files by offsets, debouncing, the heartbeat,
  the host allowlist and the replies of the server.
- `app/` is the program around it: arguments, the file system, the watcher, sockets.
- `tests/` runs the library.

| Module      | What it holds                                                          |
|-------------|------------------------------------------------------------------------|
| `text`      | characters and strings                                                 |
| `seconds`   | points in time with the precision of doubles, and the clocks           |
| `json`      | JSON documents as plain values                                         |
| `keyed`     | maps from texts to values                                              |
| `parser`    | sessions, and what events do to them                                   |
| `status`    | the status of a session at a point in time                             |
| `checklist` | cards scraped from the lines of a text                                 |
| `summary`   | what a session shows of itself                                         |
| `state`     | the sessions in memory, and the events that tell of them               |
| `follow`    | reading a file that grows                                              |
| `monitor`   | the names of the files, and what becomes of their contents             |
| `pulse`     | what happens as time goes by                                           |
| `security`  | who may talk to the server                                             |
| `server`    | the replies of the server                                              |

## Running

```
session-kanban [--agent <name>] [--port 8081] [--host 127.0.0.1] [--log-level info]
```

`CC_AGENT`, `CC_PORT`, `CC_HOST` and `CC_LOG_LEVEL` set the same in the environment. A program whose
file is called `<name>-checker` is for the agent `<name>` and needs no `--agent`. The files of the
agent are in `~/.<name>/`; the offsets (inode and byte offset of each event stream) are kept in
`~/.cache/<name>-checker/offsets.json`.

Points in time are held as integers, in ticks of which there are two to the power of 63 in a second. A
JSON number from two to the power of -11 up is held exactly, and what is computed of times is rounded as
doubles are.
