# heliosdb-codekb-mcp

The logic of a code knowledge base that agents query over the Model Context
Protocol, verified with Verus. A gateway advertises the tools of an embedded
engine together with a few wrapper tools, answers calls of the wrappers with
compact cards, and passes everything else on. An ingest run distils what the
engine has indexed into symbol cards, file cards, summaries and mentions.

- `src/` is the verified library. It takes what the engine, the clock and the
  disk say as plain values, and returns what to send, write or run. JSON text
  is read and written by `serde_json`; the wrappers in `src/json.rs` state what
  is believed of it.
- `tests/` runs the library on concrete values.
- `app/` is the program around it: the command line, the configuration and
  progress files, the engine, HTTP, and the floating-point ranks.

## Modules

| Module | What it holds |
| --- | --- |
| `text`, `utf8`, `decimal` | strings as sequences of characters, their UTF-8 bytes, and numbers in decimal |
| `json` | JSON values with a mathematical view |
| `mcp_trim`, `schemas`, `wrappers`, `cache`, `gateway` | profiles, tool lists, wrapper tools, their cached results, and the rewriting of responses |
| `args`, `question`, `ask`, `repo_summary`, `docs`, `git_summary`, `symbol_card` | the answers of the wrapper tools |
| `cells`, `statements`, `strmap`, `ranking` | rows, SQL text, maps by name, and ranked orders |
| `distill`, `repomap`, `llm`, `linker` | the passes of an ingest run |
| `kb`, `config`, `calendar` | where a knowledge base lives, and the configuration |
| `checkpoint`, `quality`, `ingest`, `status` | how far a run is, and what the commands report |
