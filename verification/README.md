# dashboard

Metrics bookkeeping for an Axum web service, verified with Verus.

`src/` is the verified library:

- `globals` — the `MetricsStore` (bounded histories, per-route statistics,
  memory statistics, blacklist), its well-formedness, and the history
  operations `add_to_deque` / `get_recent_from_deque`.
- `history` — merging of histories (ordering by timestamp, dropping repeated
  entries, keeping the newest `MAX_HISTORY`), removal of a time range, and
  the laws of these operations.
- `route_stats` — per-route statistics with sliding windows; averages are kept
  as exact sums.
- `memory_stats`, `tracking_allocator` — memory figures, allocator byte
  counters, and allocation counts by size category (small, medium, large).
- `metrics` — recording a route call (skipping blacklisted routes), periodic
  memory events with the size categories, snapshots and the data of a
  dashboard update.
- `blacklist`, `persistence` — blacklist edits, and saving, merging,
  reloading and deleting persisted metrics, with the save/reload law.

`app/` holds what Verus does not check: the global store behind a lock, the
global allocator, the Axum middleware and handlers, JSON files (serde), the
system readings (sysinfo) and the shutdown hook (ctrlc).
