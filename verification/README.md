# sentinelx

The logic of an agent that lets a hub operate the Linux host it runs on: what the
host's policy allows, how requests are read and answered, how files are read, edited
and moved, how commands, scripts and git are run, and how the connection to the hub is
kept. All of it is verified with Verus.

## Layout

- `src/` is the library. Every function states what it returns in its contract, over
  a mathematical model of its inputs; the promises that span functions are public proof
  functions beside them.
- `app/` is the program around it: files, sockets, processes and clocks. It asks the
  library what to do, does it, and hands back what came of it.
- `tests/` runs the library on concrete values.

## The library

| Modules | What they hold |
|---|---|
| `agent`, `message`, `op`, `frame`, `bounding` | the session with the hub and what goes over the wire |
| `dispatch`, `capabilities`, `help`, `progressive_help` | the operations that are served, and what is told of them |
| `policy`, `paths`, `segment`, `shell` | what may be done on the host |
| `fileops`, `scan`, `edit`, `edit_upload`, `validators`, `patterns`, `fsmutate` | files that are read, searched, edited and moved |
| `upload`, `fetch`, `file_export`, `staging` | files that are sent and fetched |
| `git_ops`, `project_snapshot`, `records`, `script`, `jobs`, `pending_results` | repositories, scripts and work in the background |
| `local_api`, `endpoint`, `compatibility`, `http_reply`, `template` | programs on the host that are called |
| `identity`, `preflight`, `host`, `local_audit` | who the agent is, where it runs and what it records |
| `json`, `wire`, `text`, `ascii`, `digits`, `order`, `time`, `ratio`, `coding`, `handler_error` | values and texts |

What comes from other crates stands behind functions marked
`#[verifier::external_body]`, each with a comment on what is taken on trust.
