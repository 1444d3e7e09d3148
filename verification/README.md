# simaai-sentinel

Sentinel collects board telemetry on SiMa.ai Modalix systems (temperatures,
PMBus power rails, CPU, memory, storage and network), publishes it as a JSON
cache, records named checkpoints for run-to-run comparison, and serves a
local HTTP/JSON API on a Unix socket. An interactive terminal view and plain
text reports sit on top of the same data.

## Layout

- `src/` is the library, written in Verus. Its functions carry `requires` /
  `ensures` contracts and are proved against them:
  - `text`, `keyed`, `paths`: character-level parsing, an insertion-ordered
    text map, and path handling through `std::path`.
  - `system`, `thermal`, `power`: procfs/sysfs/hwmon parsers, PMBus rail
    tables and pass bookkeeping, and every metric definition.
  - `ring`: the bounded sample history.
  - `runs`: checkpoint names and IDs, run selection, retention, sample
    limits, elapsed-time arithmetic and CSV quoting.
  - `api`: request framing, request-line and header parsing, URL decoding,
    routing and response framing.
  - `cli`: the command line.
  - `clock`: compact UTC stamps for run IDs and export names, laid out from
    the calendar fields chrono finds.
  - `tui`: the operations view's key handling and Compare Runs selection.
- `app/` is the program around the library: file and socket I/O, threads,
  the terminal drawing, serde types, and the floating-point arithmetic
  (rates, watts, statistics, energy).
- `tests/` exercises the library on concrete inputs.
