# homeai

The core of a local-first home assistant, written in Verus. The functions
under `src/` are verified against their `requires`/`ensures` contracts; the
few that call the clock, the random source, `rcgen` or `serde_json` do so
through small wrappers whose contracts are trusted, and what the clock reads
is left unconstrained.

- `src/` — the verified library
  - `config.rs`: configuration sections, their defaults and validation
  - `paths.rs`: the production filesystem tree and its prefixed mirror
  - `tokens.rs`: scoped bearer tokens and the token store
  - `auth.rs`: bearer extraction, failed-attempt lockout, request authorization
  - `health.rs`, `restart.rs`: task health and the supervisor's restart policy
  - `bus.rs`: event validation, core events, retention cut-offs, payload form
  - `house.rs`, `model.rs`: the house file and the rows it seeds
  - `api.rs`: what the local API's handlers compute and check
  - `tls.rs`: required and self-signed TLS material
  - `sorted_map.rs`, `text.rs`, `clock.rs`: supporting pieces
- `tests/` — the test suite, run against the compiled library
- `app/` — the program around the library: command line, files, database,
  logging, async runtime, and the supervisor loop
