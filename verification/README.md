# mflash_core

The core of the mflash v4 flashcard format, verified with Verus, and the
`mflash` command-line tool around it.

`src/` is the verified library:

- `pb`: the deck model (`Deck`, `Card`) and its mathematical views.
- `varint`, `wire`: protobuf varints, field keys, strings, and the skipping
  of unknown fields inside a card (varints, and a deck's unknown fields, go
  through `prost`).
- `codec`: the `deck.pb` encoding of a deck and its decoding; `roundtrip`
  proves that decoding an encoded deck gives the deck back.
- `schema`: reading and writing a workspace's `deck.pb`.
- `db`: the SQL statements of the workspace database and the rows a deck is
  stored as.
- `importer`: a deck from the bytes of a two-column CSV file (read by
  `csv`), with distinct card ids.
- `workspace`: the plan that unpacks an `.mflash` archive (read by `zip`),
  which never writes outside the workspace, and the Zstandard archive that
  packs a workspace (written by `zip`), which reads back as the workspace.
- `optimizer`: which workspace images are converted to WebP, the WebP bytes
  (by `image`) and the paths the cards' media move to.

`app/` is the tool: argument handling, reading and writing files, walking
directories, SQLite, the parallel loop over images and the JSON/TOML/YAML
renderings.

The `deck.pb` layout is given at the top of `src/codec.rs`.
