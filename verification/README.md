# brarr-orchestrator

The logic of an aggregator that searches several trackers, ranks what they
return, hands releases to download clients and files what comes back into a
library. Everything under `src/` is verified with Verus; `app/` is the ordinary
Rust around it.

| Module | What it decides |
| --- | --- |
| `fuzzy`, `marker`, `episode_match` | what a title or a file name refers to |
| `metadata` | which source a title belongs to, and how it is searched |
| `scan`, `poll` | what is searched, in what order, and what is taken |
| `deliver`, `push`, `queue` | how a release travels and what became of it |
| `import`, `remote_path`, `host_path` | where a file is, and where it goes |
| `relink`, `forget`, `folder_names`, `flip` | repairing and reshaping the library |
| `db`, `runtime`, `provider_cache`, `maintenance` | what stored rows and settings mean |
| `grpc`, `notify` | what callers and media servers are told |
| `text`, `order`, `outside` | shared vocabulary, and calls into other crates |

Text is modelled as `Seq<char>`, paths as text with an explicit separator, ids
as `u128`, and instants as nanoseconds. A few calls into other crates and into
std are taken on trust: those into `uuid`, `url`, `time` and `serde_json` in
`outside`, and those into std in `text`, `deliver` and `remote_path`. Each says
what it claims.

`app/` holds the database statements, the filesystem, HTTP and the background
pruning task.
