# kiro_rs model catalogue

A Verus-verified library for the model side of a Kiro API gateway, with a thin
unverified shell around it.

- `src/` — the verified library
  - `auth` — API-key extraction from header values and key verification (plain text or
    lower-case hex MD5), compared in constant time
  - `model` — model records (API model, static metadata, published record)
  - `model_service` — the merged catalogue, per-account model lists, the cached
    model-to-accounts index (served while younger than its TTL), and full refreshes that
    keep the old catalogue when no account refreshes, with their invariant and laws
  - `metadata` — LiteLLM table entries, the fetched-metadata map and the source order
  - `models_api` — what a ListAvailableModels call sends and how its status is judged
  - `refresh` — which accounts a full refresh visits, its tally, and the retry decision
  - `text` — character-level text helpers
- `app/` — HTTP calls, JSON (serde forms of the records), locking and request headers
- `tests/` — tests of the library

Floating-point prices and rate multipliers are carried in the library as IEEE-754 bit
patterns; `app/` converts them. The static metadata JSON is given to the service at
construction.
