# memchr_etna

Byte search over slices (`memchr`, `memrchr`, and a double-ended iterator
over every position of a byte), verified with Verus against a spec function
that lists the positions of a needle, together with the property checks that
hold the search to a naive scan, and the decisions of the runner that drives
those checks under several property-based testing tools.

- `src/positions.rs`: the positions of a byte as a sequence, and lemmas.
- `src/search.rs`: `memchr`, `memrchr`, `Memchr`, `Rev`, `memchr_iter`,
  `memrchr_iter`.
- `src/etna.rs`: `PropertyResult`, the naive scans and the two properties.
- `src/harness.rs`: run measurements, result readings, tool and property
  names, canonical inputs, input pools, case budgets.
- `src/text.rs`, `src/json.rs`: decimal text, string comparison, JSON
  escaping and the report line.
- `src/laws.rs`: laws over the spec functions.
- `app/`: the runner program (I/O, timing, the testing tools themselves).
