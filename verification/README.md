# wincode

A binary serialization library in the bincode wire format, written in Verus: every
function of the library is proved against a contract that states its wire format.

## Layout

- `src/io/` — byte sources and sinks. `Reader` is modelled by the bytes it will still
  yield and the bytes left in its source, and a refused request leaves it in place;
  `Writer` by the bytes it has accepted, the room it has left and what it holds past the
  written bytes. Slices implement `Reader`; `SliceWriter` and `Vec<u8>` implement `Writer`,
  and `SliceWriter::into_inner` hands back the caller's buffer with what was written in front
  of the untouched rest. `LimitReader` caps the bytes a reader may hand out, behaves like
  its inner reader cut short at the limit, and keeps a ghost count of what it has passed on.
- `src/schema/` — `SchemaWrite` and `SchemaRead`, whose spec functions `spec_encode` and
  `spec_decode` give the wire format; `SchemaRoundtrip` ties the two. Primitive integers,
  `bool`, and sequences (`Vec<T>` and `containers::VecOf<T, L>`) are implemented, with
  statically sized items read through one trusted window.
- `src/len.rs` — length encodings (`BincodeLen`, `FixIntLen<u32>`).
- `src/config/` — type-level configurations (length encoding, preallocation limit,
  deserialization size limit), the configuration-aware `encode`/`decode` families, and the
  `Serialize`, `Deserialize`, `DeserializeOwned` and `ZeroCopy` traits.
- `src/decode.rs`, `src/encode.rs` — the same families with the default configuration.
- `src/laws.rs` — laws across functions: round trips, exact decoding, size checks, limits,
  and that raising or removing a size limit never changes a successful decode.
- `src/derive_plan.rs` — the decisions a derive makes about a struct's or enum's fields, and
  the size joins (`join_types`, `join_variants`, static prefix) that derived code calls.
- `app/` — token generation for derived `SchemaWrite`/`SchemaRead` impls (with `syn`,
  `quote` and `darling`), built on `derive_plan`.
