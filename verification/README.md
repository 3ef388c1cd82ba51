# jaeger_stats

Analysis of Jaeger traces and stitching of the analysis results into time series,
with the logic verified by Verus.

- `src/` — the verified library:
  - `trace`, `traceext`, `trace_analysis` — traces read from Jaeger items (timing, root
    call, response time), end-point keys, deduplication by trace id, the grouping of
    traces per end-point into complete and incomplete ones, and the edge values of diagrams.
  - `stitch` — stitch lists, building the stitched data set and its column selections, the data
    series filter for low-volume services, the keys of the service/operation and
    call-chain reports, the lists of services and of inbound and end-to-end call-chains
    (with the regular expression of the `regex` crate) and their ordering by key, and the
    graphs and Mermaid diagrams of services and operations.
  - `order`, `text` — the lexicographic order of strings and character-level helpers.
- `app/` — file input and output around the library, the floating-point parts of the
  statistics, and copies of library types with serde, clap and thiserror derives.
- `tests/` — tests of the library on concrete values.

Floating-point values are not computed by the library: a stitched line holds each value
as the bit pattern of an `f64` and gets its average and best-fitting model from a
function of the caller; the graphs and links carry a count type of the caller's choice,
and the caller supplies how counts are added and written.
