# nexus

The decision logic of the Nexus control plane (domains and hosting,
ICMP monitoring with SigNoz maintenance windows, guest deployment and the
console pages), written in Verus and verified against its contracts.

- `src/` is the verified library. JSON documents are modelled by
  `json::JsonValue` with a mathematical view `json::Json`; text by
  `Seq<char>`. Each public function states its result over spec functions,
  and the `lemma_*` proof functions state the laws that relate functions
  (idempotent onboarding, only enabled devices probed, maintenance windows
  never left untracked, bounded fail-closed retries, order-independent
  fingerprints, ...).
- `app/` holds what the library leaves to the host: files, processes, the
  SigNoz HTTP client and the conversion to and from `serde_json::Value`.
- `tests/` exercises the library on concrete values.

Verify with `verus` on `src/lib.rs`; the outside crates used by the library
are `url` (URL parsing) and, in `app/`, `tokio`, `hyper`, `serde_json` and
`anyhow`.
