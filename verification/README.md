# umbra

The verified core of a desktop proxy client that drives a sing-box core.

- `src/` is the library, verified with Verus: share-link parsers (vless,
  hysteria2, V2Ray JSON arrays), subscription reading and server-list
  merging, the profile store and its migration, the sing-box configuration
  generator, connection and crash-recovery decisions, the log ring, settings
  patches, tray labels and the process list. Calls into outside crates
  (url, percent-encoding, base64, serde_json, chrono, semver, sha2, uuid,
  rand) go through small trusted wrappers whose contracts say what those
  crates document.
- `tests/` holds the tests, run against the compiled library.
- `app/` is the unverified shell around it: file and network I/O, the
  serde copies of the library's types, the sing-box process and traffic
  loops, and the platform hooks.
