# comp_tools

The decisions behind a set of small programs that run beside a WebAssembly component
platform: daemons that lend components a capability of the machine, an HTTP door that
spreads requests over replicas, a runner that judges candidate changes by their checks, a
driver that takes a goal to a pull request, a photo pipeline, and the reports on what is
built and how it performs.

`src/` is the library: every rule, parser, state machine and report of those programs, each
function with a contract that Verus proves. `app/` is the rest: arguments, sockets, files,
processes, queues, and arithmetic on floating-point numbers. It hands the library plain
values and does what the library answers.

## Layout of the library

| modules | what they hold |
| --- | --- |
| `text`, `number`, `order`, `text_map`, `path`, `scope`, `url`, `json`, `digest` | text, numbers, sorted sets and maps, paths and allow-lists, URLs, documents, digests |
| `agent`, `oci`, `catalog`, `plug`, `capgraph`, `reuse` | what a box runs, where components come from, and how they depend on each other |
| `ingress`, `forward`, `relay`, `mailrelay`, `park` | routing, walking the replicas of an app, poking pumps, handing mail on, parked calls |
| `checks`, `goal`, `goald` | judging a candidate, running a goal, draining a queue of goals |
| `media` | keys, signed URLs, uploads, downloads, jobs, renditions and the evaluation of a photo |
| `bench`, `hopcost`, `matrix`, `planscale`, `offpeak` | reading measurements |
| `browser`, `clipboard`, `cron`, `docker`, `ffmpeg`, `field`, `fswatch`, `imageopt`, `lanscan`, `llmlocal`, `mdns` | one small daemon or tool each |

## What is taken on trust

Calls into other crates stand in small functions marked `external_body`, each with a doc
comment that says what its contract claims of the call. Where a result takes pages to state
it has a name (`value_in`, `matches_of`, `url_in`, `exif_in` and the like), and the function
that uses it says what it does with every value of that name.

Public functions named `law_…`, and the other public proof functions, state what holds of
several functions together.
