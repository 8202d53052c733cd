# tape_rs

A tape library service: files are written to LTFS volumes through a cluster of nodes, each of which
may drive a medium changer and its drives. The library in `src/` holds the rules of the service and
is verified with Verus; `app/` connects it to sockets, SQLite, Raft and the command line.

| module | what it holds |
| --- | --- |
| `engine` | the directory tree of a volume and its state: pending changes, batches, publication |
| `catalog` | the rows that a volume's index becomes in the catalog |
| `changer` | element status pages and the commands of a medium changer |
| `daemon` | the replicated state, the file directory, the file service, the node and its device thread, the log store, frames and HTTP |
| `client` | replies, the search for the leader, uploads |
| `fuse` | what a mount answers |
| `cli` | the reports and arguments of the tools |
| `json`, `text`, `url`, `strmap`, `idmap`, `error` | what the others share |

Laws that span functions are proof functions named `law_...`, next to the functions they speak of or
in the `laws` modules. Functions marked `external_body` call other crates; their doc comments say
what is taken on trust.
