# codeg

The core of a workbench for coding agents: it keeps the connections to running agents,
watches the transcripts of their sessions, lists their conversations, takes attachments
and updates its server in place.

`src/` is the library, written in Verus: every function states what it returns, and the
statements are proved. What the proofs take for granted are the contracts of a few calls
into other code, each stated at the call's wrapper:

- the standard library: `String::push`, `str::to_lowercase`, `String::from_utf8_lossy`,
  `str::from_utf8` and the atomic updates of the upload tally;
- `serde_json` (reading JSON), `chrono` (reading dates), `uuid` (random ids), and `tar`
  with `flate2`, and `zip` (listing archives).

`app/` is the program around the library, in ordinary Rust: HTTP handlers, the database,
files, processes and timers. `tests/` runs the library.

| module | what it holds |
| --- | --- |
| `upload` | names, sizes and the quota of attachments |
| `archive`, `update` | what an update archive may put on disk, and the order in which an update swaps, undoes and rolls back |
| `transcript`, `accounting`, `ledger`, `watch` | reading a session's transcript, background tasks, and which turns were sent from here |
| `conversations`, `sorting` | lists of conversations and what is counted of them |
| `manager`, `flows`, `bridge` | connections, the steps of prompts, cancels and forks, and where events go |
| `text`, `number`, `bytes`, `clock`, `json`, `error`, `models`, `params` | what the others build on |

A step that needs the outside world (a request to the database, a file, an agent) is
returned to the caller, who carries it out and reports what came of it.
