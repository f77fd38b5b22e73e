# nixcfg

Bridge config structs to NixOS module options via JSON Schema: emit the JSON
Schema of a config struct, wrapped with nixcfg metadata, for a nix library to
turn into typed module options.

## layout

- `src/` — the verified library, over its own JSON model (`json::Json`, viewed
  as `json::JsonModel`):
  - `json.rs`: the JSON value, its model, object lookup and update, and the
    laws of reading back what was written;
  - `schema.rs`: `NixSchema`, merging serialised defaults into a schema's
    properties and into the object variants of optional properties
    (`with_defaults`), the emitted document (`document`, `emit_document`) and
    its pretty JSON text (`to_json_pretty`, `emit`, written by serde_json);
  - `laws.rs`: what merging keeps and changes (secrets never take defaults,
    existing defaults win, merging the same defaults twice is merging them
    once where no object among the defaults repeats a key, ...) and what the
    document carries;
  - `attrs.rs`: the rewriting of `#[nixcfg(...)]` attributes into
    `#[schemars(extend(...))]` arguments, on a model of the annotated item;
  - `example.rs`: the example service's configuration and its defaults.
- `app/` — what stands outside: conversion from `serde_json::Value` into the
  model, schema generation with schemars, serialising config values, the
  syn/quote side of the attribute, the example program and the workspace tool.
- `tests/` — tests of the library on concrete values.
