# Lichess puzzle CSV to PGN, verified

A library that converts an uncompressed Lichess puzzle CSV export into PGN:
it keeps the puzzles rated at or above an inclusive minimum, converts their
UCI moves to SAN and writes each as a PGN game with the puzzle's metadata as
tag pairs. The library is written in Verus and its contracts are proved.

- `src/text.rs`: whitespace, trimming, word splitting, decimal rendering and
  `u32` parsing over characters.
- `src/table.rs`: the `csv` crate's reader, seen as a queue of records.
- `src/chess.rs`: UCI to SAN movetext, with `shakmaty` playing the moves.
- `src/puzzle.rs`: locating the columns from the header and reading a puzzle.
- `src/pgn.rs`: escaped tag pairs and the game text of a puzzle.
- `src/convert.rs`: the conversion, record by record, batch by batch or at
  once, and its laws.
- `src/cli.rs`, `src/form.rs`: the decisions of the command line tool and of
  the desktop form.
- `app/`: file handling (the CSV is streamed record by record through the
  verified `RowConverter`; the PGN goes through a temporary file that replaces
  the destination only on success), the command line entry point and the
  egui desktop app.
