# wjsm-runtime (verified core)

The logic of the wjsm JavaScript runtime that does not need the WebAssembly
engine, written in Verus with contracts and proofs.

- `src/` — the verified library:
  - garbage collector: `color`, `page`, `mark`, `marking`, `relocate`,
    `handle`, `barrier`, `remset`, `young`, `old_mark`, `host_roots`,
    `concurrent`, `director`, `generations`, `heap_growth`, `words`,
    `ordered`, `clock`;
  - modules: `module_registry` (with `path_key`, keys compared as paths),
    `module_loader`;
  - `microtask`: the order of the job-queue drain and how each job settles
    its promise;
  - host helpers: `descriptor`, `property_key`, `host_methods`, and the
    object model behind them: `object_slots` (defining properties),
    `object_layout` (objects in linear memory), `own_keys` (own key
    order), `proxy` (proxy steps and trap invariants), `construct` (array
    construction through a constructor), `cstring` (interned names in
    linear memory);
  - `json` (JSON text to values) and `crypto` (hashes, HMAC, random values).
- `tests/` — tests run against the compiled library.
- `app/` — host-side glue: the floating-point pacing model of the collector
  director and numeric argument checks that the verified core cannot hold.

Where a host helper reads or writes the WebAssembly instance (linear
memory through the engine, calling traps and getters, value encodings of
the IR crate), the library takes what was read as plain values and returns
the decision; the engine calls stay with the embedding runtime.

Laws of the library are public proof functions whose names begin with
`law_`.
