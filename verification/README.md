# watcher

The verified core of a bulk filesystem watcher, with the telemetry and
crash-reporting entry points that sit beside it.

- `src/events.rs`: merging a batch of debounced filesystem events into one
  `BulkFilesystemWatcherEvent` (added, modified, deleted, renamed paths), with
  the merge stated as a fold over the events and laws about it.
- `src/registration.rs`: reference counting of watch registrations, and the
  step that turns a register / unregister command into the watch to perform.
- `src/collections.rs`: path sets and association lists kept in vectors.
- `src/telemetry.rs`, `src/crash_reporting.rs`: event construction and the
  no-op reporting entry points.
- `src/external.rs`: outside types that the library carries through.
- `app/`: the background thread that owns the `notify` watcher, channels,
  path normalization, conversion of `notify` events, and `chrono` conversions.
