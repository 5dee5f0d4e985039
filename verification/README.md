# forge_code

Splits source code into tiles - functions, types, imports, comments and
blocks - one line at a time, for Rust, Python, TypeScript/JavaScript, Go, C
and Java, and cuts text of unknown language into blocks at blank lines.
Every function of the library is verified with Verus against a contract
stated over mathematical models of the text.

Layout of `src/`:

- `text.rs` - strings as `Seq<char>`: whitespace, trimming, prefixes,
  searching, splitting into lines and joining them, decimal notation.
- `tile.rs` - `CodeKind`, `Language`, `CodeTile` (with its model
  `TileModel`) and `CodeStats`.
- `blocks.rs` - the name after a keyword, brace blocks and indented blocks.
- `model.rs` - what each reader produces, as spec functions of the lines.
- `decompose.rs` - `CodeDecomposer`: language detection and the readers.
- `stats.rs` - selecting tiles by kind and counting them.
- `laws.rs` - properties of the library as a whole.
- `external.rs` - the calls into `uuid` and `std::collections::HashMap`
  that are trusted rather than proved. The one other trusted call,
  `String::push`, is `push_char` in `text.rs`.

`app/` holds copies of the public types with serde's derives, and
conversions to and from the library's types.
