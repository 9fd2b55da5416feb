# qdl

Host-side logic for flashing Qualcomm devices, verified with Verus.

* `src/types.rs`: the settings of a Firehose session by name and by default, the
  state that a channel keeps of a session, and a channel that leads nowhere.
* `src/vip/`: Validated Image Programming. `program.rs` reads the program file,
  `hashes.rs` collects the digests of everything that is sent for it, `tables.rs`
  turns digests into the signed table and its chain of further tables, and
  `elf.rs` makes the header of the file to be signed.
* `src/digest.rs`, `src/text.rs`: SHA-256 and strings.
* `app/`: the files, streams and messages around the library.
* `tests/`: the library at work.
