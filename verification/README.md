# downloadcore

A download core: it moves the bytes behind a URL, unchanged, into a local file. It loads
several ranges of a file side by side, splits the largest remaining range when a worker
is free, resumes interrupted downloads, and puts the pieces together at the end. It has
no interface, no queue and no opinion on how progress is shown.

## Layout

`src/` is the verified library. The decisions of a download are made there, by functions
from plain values to plain values, and proved with Verus. The exceptions are those that
rest on floating point: how long the speed limiter waits, and whether a connection counts
as slow. They stand in `app/`, which also calls the limiter after each write.

| module | what it decides |
| --- | --- |
| `part`, `split`, `tiling` | ranges, the safe zone, splitting; ranges tile the file |
| `session` | which part a worker gets, what is split, when a download is over |
| `pump`, `worker` | what to do with a connection, in parts or a single one; retries and reconnects |
| `engine` | the rounds of a download, its status, progress, where the file goes, the result |
| `store` | the resume record, and when it may be used |
| `progress` | how many bytes were read, and how many there are |
| `history` | everything that can happen to a download in parts, interruptions included |
| `host` | such downloads as the host sees them: canceled, asked for again, complete |
| `assemble`, `content` | putting pieces together; the result is the source, byte for byte |
| `client`, `url`, `util` | requests, answers, sources, headers and file names |
| `config`, `types`, `errors` | parameters, requests and results, kinds of errors |
| `cabi`, `cli`, `clock`, `serve` | the C interface, command lines, dates, a trial server |
| `text`, `number` | texts and numbers |

The promises that span several functions are public proof functions whose names begin
with `law_`. The central ones are
`history::law_every_finished_download_in_parts_is_the_source`,
`host::law_canceled_call_is_completed_by_the_next` and
`worker::law_single_stream_is_the_source_so_far`.

`app/` is the ordinary Rust around it: connections, files, threads, the C interface and
the two programs (`get` and `serve`).

`tests/` runs the library; `tests/engine.rs` drives whole downloads in memory against a
server that can be told to misbehave.
