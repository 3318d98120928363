# qt-sources-gen

Keeps the `sources` file of a Flatpak Qt SDK extension in step with Qt's
upstream `md5sums.txt`. The SHA-512 of `md5sums.txt` (the sentinel) is stored
in the `sources` file together with the SHA-512 of every submodule archive;
when the sentinel or the set of archives changes, every archive is downloaded,
checked against its MD5 and hashed again. Results are printed as JSON.

Layout:

- `src/` — the library, verified with Verus: string operations (`text`), the
  file-name → hash map (`file_hashes`), archive names and URLs (`modules`),
  the sentinel and the parsing of `md5sums.txt` (`sentinel`), reading and
  writing the `sources` file with its round-trip proof (`sources`), the
  per-archive checks (`verify`), the decisions of a run (`plan`), hexadecimal
  encoding (`hex`) and the SHA-512/MD5 computations of `sha2` and `md-5`
  (`digest`, `client`).
  The file-name → hash maps are `FileHashes` rather than `std`'s
  `HashMap<String, String>`: vstd's specifications of `HashMap` say nothing
  usable about `String` keys, so the library keeps a list of entries with
  distinct keys whose view is a map, and states the order it lists them in.
- `app/` — the command-line program: arguments, HTTP downloads with
  `reqwest`, file I/O, logging and JSON output.
- `tests/` — tests of the library.
