# rafce

Verified core of a regulatory audit engine.

- `src/reconciliation.rs` — volumetric reconciliation of executed against
  settled volume, with wash-trade detection.
- `src/time_travel.rs` — balance of an account at any instant, from
  snapshots (binary search) and a replayed write-ahead log.
- `src/ipc.rs` — the single-producer/single-consumer audit ring: slot
  mapping, 90 % circuit breaker, heartbeat health, huge-page region size.
- `src/cat_exporter.rs` — CSV line format of the regulator export (decimal
  text from `itoa`), part naming and roll-over, writes into memory-mapped
  parts (`memmap2`).
- `app/` — the operating-system side: part files, `mmap` of huge pages.
