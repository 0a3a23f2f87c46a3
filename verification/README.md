# yaml_spanned

A YAML value tree whose nodes carry the spans of source text they came from, with its
behaviour stated in Verus contracts and proved.

## Layout

- `src/` — the verified library.
  - `document.rs`, `load.rs`: the composed node graph of a document, read from text with
    `libyaml-safer`.
  - `builder.rs`: building a value tree from a document — scalar typing (null, booleans, YAML 1.2
    numbers), non-standard tags, duplicate-key reports, recursion and repetition limits.
  - `value.rs`, `mapping.rs`, `spanned.rs`, `tag.rs`, `number.rs`: the value types, their models
    and YAML equality; mappings keep insertion order and look keys up by YAML equality;
    `entry.rs` looks a key up once to read, change, insert or remove what is there.
  - `access.rs`, `merge.rs`, `order.rs`, `compare.rs`, `convert.rs`: accessors, span clearing,
    `<<` merging, the total and partial orders of values, and conversions.
  - `ser.rs`, `de.rs`: the serde data model for values — which value each datum becomes, the
    builders of sequences, maps (with tag recognition), structs and variants, and what a value
    hands on for each kind of datum it is asked for.
  - `repr.rs`: the plain rendering that messages name a value by.
  - `laws.rs`, `equivalence.rs`: properties proved of every input, among them that YAML equality
    is an equivalence on values whose mappings have distinct keys.
- `tests/` — tests run against the compiled library.
- `app/` — what the library leaves to ordinary Rust: reading binary64 floats from scalars,
  `Display`/`Debug` renderings, error types with messages, diagnostics, the `from_str`
  family that ties them together, and (`app/data_model.rs`) serde's `Serializer` and
  `Deserializer` traits driven by the decisions of `ser.rs` and `de.rs`.

Floats are held by their IEEE-754 bit patterns; the float reading of a scalar is supplied to
the library (see `app/lib.rs`, `annotate_floats`).

Mappings are held as a vector of entries in insertion order and looked up by YAML equality
(tags without their leading `!`, numbers by value, spans ignored). A hash map keyed by values
would need a hash that agrees with that equality, and these types only have derived hashes,
which do not; a derived hash would make lookups miss keys that YAML calls equal.
