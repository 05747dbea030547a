# skills

The verified core of a learned-skill library: small JavaScript functions that an agent
has learnt, kept as immutable artifacts, tried before they are trusted, and put before
turns that may use them.

The library under `src/` is written in Verus. Its functions state what they return in
their contracts, and the proof functions whose names begin with `law_` state what holds of the library as a
whole.

| module | what it decides |
| --- | --- |
| `artifact` | identities of artifacts, capability manifests, tags |
| `capability` | what a running skill may do, and one-shot grants for it |
| `fakes` | the stand-ins for the host that skills are tried against |
| `held_out` | held-out suites and the verdict on an artifact |
| `admission` | the evaluation of proposals and their admission by a person |
| `lifecycle`, `store` | status changes over the tables of the library |
| `policy`, `promotion` | qualified evidence and promotion on it |
| `feedback`, `usage` | reports on skills and how tasks fare with them |
| `embed`, `index` | embedding, query vectors, retrieval within budgets |
| `coordinator`, `publication` | generations and what readers see of changes |
| `distill` | drafts made from recorded tool calls |
| `operations`, `commands` | what a local owner does, and how it is reported |
| `imports`, `owner` | the longer commands, one answer at a time |
| `json`, `digest`, `text`, `order`, `backoff` | shared ground |

`app/` is ordinary Rust around the library: files, the network, the database, threads
and floating point. `tests/` runs the library.

Vectors are held by their bits, and scores by integers that are ordered as the scores
are: the library does no floating point. SHA-256, JSON text and random identifiers come
from `sha2`, `serde_json` and `uuid`; what is taken on trust of them stands in the
comments above the functions that call them.
