# pywr_core

The rules at the heart of a water resource system simulator, written in Verus with their
contracts proved:

- `scenario`: scenario groups, their subsets and labels, and the scenario domain that
  enumerates the combinations a model runs, with their simulation and schema indices.
- `timestep`: civil datetimes, durations, timesteps and the time domain built from a start, an
  end and a step (hours, days or a calendar frequency such as `1mo`).
- `recorders`: aggregation periods (months, years, runs of days), the periodic aggregator that
  gathers values into periods, event detection, and the metadata that outputs record.
- `virtual_storage`: when a virtual storage is active and when its volume is reset.
- `solvers`: solver settings and their builders, the column-to-edge map of the linear
  programme, and the mapping of solver status codes to results.
- `manifest`, `project`: project manifests — validation of their structure and paths, and
  composition of a model from a base model and selected network files.

Calendar arithmetic is delegated to `jiff` through a few trusted wrappers in `timestep.rs`,
whose contracts say what the library relies on.

`app/` holds what stays outside the proofs: reading manifests from disk and JSON, errors with
`Display`, the clock, and the floating-point aggregation functions. `tests/` exercises the
library from outside.
