# dialog_storage

Filesystem locations for dialog storage, verified with Verus.

A location is a `file:` URL. Segments are resolved against it with URL
semantics, and what they lead to is checked to lie within the location, as a URL
and as the native path that the URL stands for. The crate also says which native
path a location stands for, how names are escaped on Windows, and what the
answers of the filesystem mean.

- `src/`: the verified library. `model.rs` says what a URL is and what is done
  with it, `parts.rs` is where the `url` crate is called, `target.rs` where the
  path rules of the standard library are, and `laws.rs` states what holds of
  locations as a whole.
- `tests/`: its tests.
- `app/`: the operations on files, through tokio.
