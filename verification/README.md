# n_core

The core of an N-trend futures analysis client: it fetches K-lines and quotes from
Sina and a TianQin bridge, judges when a 5-minute bar is final, derives longer
timeframes and continuous contracts, finds N patterns and scores their signals, and
reviews the outcomes of past signals.

## Layout

- `src/` — the library, verified with Verus. Every public function states its
  result in `ensures`; the laws that relate several functions are public proof
  functions named `law_*`.
  - `text`, `num`, `order`: characters, integer parsing and formatting, a stable
    sort by text keys.
  - `clock`: calendar readings, through `chrono`.
  - `finality`: the finality tracker of a bar, replayed strategies, sentinel
    evaluation, the judger and the observer's decisions.
  - `fetch`: the request rate limiter, the priority queues and retries of the
    request coordinator, the hybrid data source's failover, quote and K-line
    parsing, symbol lists and contract search.
  - `derive`: timeframe buckets, trading days and contract rollover rules.
  - `analyze`: minutes, directions and grades, report labels, the warning-bar
    search and signal states, outcome names and review grouping, file names.
  - `config`, `backup`: settings read from legacy key/value pairs, snapshot names
    and checksums.
- `app/` — ordinary Rust around the library: HTTP clients and their async
  scheduling, files, JSON, and the measurements on floating-point prices
  (indicators, pattern legs, scores, reports).
- `tests/` — tests of the library on concrete values.
