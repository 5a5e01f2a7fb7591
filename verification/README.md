# cirrove-service

The user service behind a Cirrove mount, as a verified Verus library with a thin layer of
ordinary Rust around it.

* `src/journal/` is the account journal: queued uploads and namespace changes, their order,
  the streams of local edits, and what a receipt does to all of them. A journal is a value;
  every operation is stated as a function from one journal to the next.
* `src/filesystem/` is what a mount decides: which nodes stay resident, what a listing
  shows, how projection records and directory snapshots are laid out, and the steps of
  opening, maintaining and removing files.
* `src/transfers.rs` and `src/mutations.rs` are the steps of carrying an operation to a
  provider.
* `src/control.rs`, `src/stream.rs`, `src/manager.rs`, `src/jobs.rs`, `src/refresh.rs` and
  `src/recent.rs` are the control socket, subscriptions, accounts, background jobs, metadata
  refreshes and recent changes.
* `app/` keeps the journal in SQLite and its bytes in files, serves the control socket,
  talks to providers and drives the background work of a mount. It decides one rule itself:
  whether memory has reached a plateau (`app/plateau.rs`), which is floating point.

The few functions of other crates and of the standard library that the library calls are
wrapped in `src/outside.rs`, `src/digest.rs`, `src/text.rs` and `src/control.rs`; what is
claimed of each stands above it.
