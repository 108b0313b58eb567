# balik-db

A toy column-storage database with a small SQL front end, written in Verus.

## Layout

- `src/` is the library. All of it is verified.
  - `checksum` guards the metadata files; `checksum_laws` and `checksum_order` say which
    damage it finds.
  - `catalog` holds schemas, the marker file, the table index and the manifests.
  - `disk` is the image of a database's files and the log of changes to them.
  - `storage` is the column store: column files, delete bitmaps, row groups, scans,
    bulk loads and recovery.
  - `parser` turns SQL into statements. The `sqlparser` crate reads the text.
  - `execution` binds, optimizes, lowers and runs statements.
  - `cli` is what the commands do and print, without the input and output.
- `tests/` runs the library from outside.
- `app/` is the program: arguments, logging, TOML and JSON, files and the lock.

The store works on an image of the files and logs each change. The program reads the
files into an image, lets the library work, and then carries out the log in order, each
change atomically. What a crash in between leaves behind is covered by the laws in
`storage/recovery_laws.rs` and `storage/definition_laws.rs`. Where a change fails,
`storage/withdrawal.rs` says how a table that was being created is taken back.

## Contracts

Each operation of the store has an exact contract over the image of the files. The files
`*_laws.rs` connect these with what a user sees:

- a represented table is a list of rows, some of them deleted (`storage/table_model.rs`);
- reading, inserting, updating, deleting and scanning mean what they should on that list;
- a `SELECT` gives the same rows with and without the optimizer;
- `INSERT`, `UPDATE` and `DELETE` change exactly the rows that they name;
- every operation keeps the store sound, and a sound store is there again when the
  database is opened the next time (`storage/soundness_laws.rs`).

## Use

```text
balik-cli init
balik-cli query --sql "CREATE TABLE orders (id INT NOT NULL, total INT NOT NULL)"
balik-cli query --sql "INSERT INTO orders VALUES (1, 100)"
balik-cli query --sql "SELECT * FROM orders WHERE total > 50 ORDER BY id LIMIT 10"
balik-cli explain --optimize --sql "SELECT id FROM orders ORDER BY total LIMIT 1"
balik-cli doctor
```
