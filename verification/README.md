# jeeflow

A workflow engine whose logic is written and proved with Verus: process models read from
JSON, instances started and tasks worked over a pluggable store, countersign gates (one
after another, in parallel, by ratio, one-vote veto), jumps and rollbacks, surrogates, and a
facade that answers every action with a JSON envelope.

## Layout

- `src/` — the verified library.
  - `text`, `json`, `json_parse`, `json_round`: strings, the JSON value model, a JSON reader
    over bytes, and number rounding.
  - `model`, `parser`: defines, instances and tasks; the process model read from a define.
  - `engine`, `eval`, `executor`: the step functions (gates, assignees, rollback rows,
    conditions) and the engine that drives them over a store.
  - `spi`, `memory`, `context`, `id_gen`, `event`, `interceptor`, `handler`: the service
    interfaces, an in-memory store, id generation, events and node interceptors.
  - `surrogate`, `filter_sql`, `metadata`: surrogate merging, filter parsing, enum
    dictionaries and handler registries.
  - `facade`, `actions`, `service`, `vo`, `seed`: the action dispatcher, its answers, view
    objects and the demo data seeding.
- `tests/` — tests run against the compiled library.
- `app/` — the program around it: reading flow files, statistics, the command line.

Each public function states its result in `ensures`; the laws that relate several
functions are public proof functions next to them.
