# Nightindex

Nightindex indexes file trees, compares the indexes, and plans and carries out
the copies, removals and merges that bring one tree in line with another. It is
made for recoveries: trees that are incomplete, renamed, or put together from
several backups.

The library under `src/` holds the rules: what is left out of a walk, what a
file's fingerprint is, which folders match, what a plan copies, what is done with
each entry and what is told of it. It is written in Verus, and every function
states what it returns. It does no input or output. Where a rule needs to know
something of the world it asks: `copy_run`, `delete_run`, `backup`, `scan`,
`merge` and `staging` take what is known so far and give the next question, or
what is settled.

The program under `app/` walks the trees, reads and writes the SQLite indexes,
and answers the questions. It is the `nightindex` command.

## Layout

- `scan`, `policy`, `pattern`, `path`: what a walk finds and what it leaves out.
- `fingerprint`, `semantic`, `archive`, `archive_laws`, `archive_rows`, `fnv`,
  `hash`, `cache`, `profile_table`: what is known of a file.
- `plan`, `copy_run`, `staging`, `backup`, `delete_run`, `progress`, `resume`,
  `logs`: copies and what is told of them.
- `compat`, `compat_laws`, `compat_run`: the arguments of other copy tools.
- `compare`, `extract_check`, `member_diff`, `archive_compare`, `binary_diff`,
  `status`: how two trees, archives or files differ.
- `dossier`, `matching`, `matching_laws`, `report`: which folders are the same
  under another name.
- `merge`, `merge_laws`: what becomes of the folders that match.
- `text`, `textmap`, `filter`, `order`, `keyed`, `record`, `csv`, `number`, `ratio`,
  `double`: texts, maps, order and numbers.

Functions named `law_..` state what holds of the library as a whole.

## Numbers

Scores are exact fractions (`ratio`). Rates and shares that are told in binary
floating point are computed by rounding exact values to double precision
(`double`).
