# jni_bindgen

The text logic of a JNI binding generator, verified with Verus.

- `src/` — the library: `text` (decimal rendering, comparisons, line-ending removal),
  `utf16` (Java strings as UTF-16 code units, strict and lossy decoding),
  `cargo_toml`, `bindgen` and `android_sys_gen` (expansion of `Cargo.toml.template`),
  `generated_file` (the marker check that guards generated files) and `cli`
  (subcommands, API levels, SDK paths).
- `app/` — the file, environment, command-line and JNI edges that call the library.
- `tests/` — tests of the library on concrete values.
