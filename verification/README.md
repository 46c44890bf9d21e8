# pd

The verified core of a client for the placement driver (PD) of a TiKV
cluster, written in Verus.

- `src/` — the verified library:
  - `text` — splitting, trimming, decimal notation and port-number parsing on strings;
  - `endpoints` — reading comma-separated endpoint lists;
  - `validate` — the endpoint check (distinct endpoints, one cluster id, first answer kept);
  - `members` — member lists as `GetMembers` reports them;
  - `leader` — the randomized order in which the leader search tries members, and the two leader-search state machines;
  - `address` — host and port of an endpoint (through the `url` crate);
  - `retry` — retry bookkeeping of blocking and asynchronous requests;
  - `response` — request headers and response-header checks;
  - `mock` — the mock PD service's member list and id counter.
- `app/` — gRPC clients, the mock server and the demo programs around the library.
- `tests/` — tests of the library.
