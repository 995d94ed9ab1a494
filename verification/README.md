# flowlens

The verified core of FlowLens, a desktop network-traffic monitor.

- `src/` — the library, verified with Verus: per-device packet accounting and
  flow attribution (`capture`), the SQLite traffic history with its live
  buckets, rollups and merged queries (`history`), port ownership (`port_map`),
  software categorization (`software`), the IP protocol policy state machine
  (`ip_policy`), adapter I/O deltas (`adapter_io`), the embedded asset server's
  request handling (`embedded_assets_server`) and the command helpers
  (`commands`).
- `tests/` — tests of the library with the real outside crates linked.
- `app/` — the unverified shell: capture threads (pcap), OS counters (sysinfo),
  command runners, registry access, the asset server's sockets, and the
  serializable copies of the library's types.

Capture sessions take their devices from the system's full list
(`capture::capture_targets`): a named session captures the devices whose
display name matches, and a session without a name captures every device that
has an address, virtual and duplicate adapters included. The device picker's
list (`capture::select_devices`) is the one that hides noise adapters and
repeated display names.
