# strex

A command-line and browser runner for API request collections written in
YAML: requests with `{{variable}}` templates, pre- and post-request scripts,
declarative assertions, data-driven runs, load tests and curl and OpenAPI import.

The decision-making core is a library verified with Verus; the program around
it does the I/O.

## Layout

- `src/` — the verified library.
  - `text`, `strmap`: strings as character sequences, and an insertion-ordered
    string map with its mathematical view.
  - `interpolation`, `context`: template resolution and the three variable
    layers (environment, collection variables, data row).
  - `parser`, `yaml`, `collection`: the checks made on a collection file and
    the collection model.
  - `assertions`, `http`, `runner`, `script`: what a request resolves to, how
    its response is checked, and the run plan that failure actions drive.
  - `json`: JSON values and JSONPath queries through serde_json and
    serde_json_path, each value held with its compact text.
  - `data`, `perf`: data rows, data-driven results, load-test settings,
    thresholds and the integer side of the metrics.
  - `report`, `ui`, `validate`, `import`, `history`, `cli`: reports, browser
    events, the `validate` check, curl and OpenAPI import, saved runs and the command line.
- `tests/` — tests of the library.
- `app/` — the program: argument parsing, files, HTTP transport, the
  JavaScript sandbox, concurrency, the web server and the floating-point
  metrics.
