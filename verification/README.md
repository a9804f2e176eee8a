# xai_grok_input_sanitize

A verified input sanitizer for an agent's text channels: user input in the
terminal, external content (tool results, files, web pages, skills, system
prompts, hooks) and the request that finally goes to the model.

The library (`src/`) is written in Verus. Every public function carries a
contract over mathematical models (sequences of characters, category
actions, signal lists) and is proved against it; the properties that tie
several operations together are public proof functions in `src/laws.rs`
and next to the functions they concern.

## Modules

| Module | What it holds |
|--------|---------------|
| `text` | Character sequences, decimal formatting, ASCII classes, trimming |
| `category`, `classify` | Risk categories, severities, code point classification |
| `policy`, `config` | Policies, profiles, the `[input_sanitize]` table and its layering |
| `persist` | Edits of the `[input_sanitize]` table in a config file's text (through `toml_edit`), user/project write order |
| `sanitize` | The single-pass filter, results, model payload, toast |
| `analyze`, `stats` | Residual-risk signals on the raw and cleaned text, score and level |
| `analyze_image` | Image statistics, PNG and JPEG container checks, base64 decoding |
| `note` | `<input_sanitize>` and `<untrusted_content>` notes |
| `untrusted`, `model_bound` | The external-content filter and the model-bound hard filter |
| `snapshot`, `session`, `apply`, `input_allow` | Terminal settings snapshot, per-agent session, applying input, the `/input-filter` command |
| `wide` | Exact naturals below 2^256 for the statistics on inputs of any length |
| `laws` | Idempotence, name round trips, profile and session properties, security hits, base64 round trip |

`app/` holds what is not verified: the serde and `std::error::Error` forms of
library types, reading and writing the config files, and the Shannon entropy
measurements, which need floating point. The library decides what is
measured (`entropy_sample`) and what a measurement means (`add_entropy`,
`analyze_image_bytes`).

Ratios in the analysis are compared exactly in integer arithmetic; decimals
in signal details are exact fractions rounded to the nearest digit,
ties to even; entropy readings, which arrive already rounded down, are
rounded half up.
