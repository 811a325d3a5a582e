# ais

A command-line client for the Panasonic AiSEG2 HEMS controller: it reads
power data over the controller's web UI (HTTP with Digest authentication) and
switches devices that only the controller can automate. Every command prints
one JSON document on stdout; errors go to stderr as one JSON line and map to
fixed exit codes.

## Layout

- `src/` — the library, verified with Verus. It holds the interpretation of
  every page and answer of the controller, the control payloads, the Digest
  authentication, and the decisions of each command (which page to read next,
  when a scan ends, which device a query names, what a control answer means).
  - `text.rs` — character-level helpers with exact specifications.
  - `json.rs`, `html.rs` — the trusted boundary to serde_json and scraper:
    thin wrappers whose results are named by uninterpreted functions.
  - `error.rs` — error kinds, exit codes, the stderr JSON.
  - `fetch/` — request planning, the Digest exchange decisions, the
    `Authorization` header (MD5 through the `md5` crate).
  - `parse/` — power flow JSON, circuit pages, energy graphs and the circuit
    catalog, device pages, and generic `id` extraction.
  - `control.rs` — change/check payloads and answers, URL encoding.
  - `command.rs` — per-command decisions: date parsing and formatting, the
    circuit page scan, the device page scan, device selection, control plans
    and completion polling.
- `app/` — the program around the library: argument parsing (clap), the HTTP
  exchange (ureq), logging, the `f64` readings and the serde output types.
- `tests/` — tests of the library on concrete inputs.

Readings are kept as decimal literals inside the library; the program turns
them into `f64` when it prints them.
