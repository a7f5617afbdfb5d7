# gaffer

Test intelligence with machine-checked contracts: which tests a change affects, which tests are
flaky, how failures cluster, how healthy a run is, and how results travel to the dashboard.

## Layout

- `src/` is the library. Every item in it is checked by [Verus](https://github.com/verus-lang/verus).
  - `affected`, `observations`, `graph`, `imports`, `walker`, `tree`, `paths`: affected tests.
  - `cluster`, `flaky`, `duration`, `health`: what the history of a project says.
  - `run`, `status`, `error`: runs, their comparison, and what is sent about them.
  - `upload`, `transfer`, `multipart`: uploading reports and artifacts.
  - `config`, `framework`, `discovery`, `git`, `doctor`, `display`, `commands`, `auth`: the decisions
    behind the command line.
  - `text`, `ranking`, `escape`: what the others are built from.
  - `laws`: what several of these keep together, such as that a cache changes no result.
  - `pattern`, `json`: the calls into `regex` and `serde_json`. Their contracts are believed, not
    proved.
- `tests/` runs the library on concrete values.
- `app/` is the `gaffer` program around the library: arguments, files, the local database, HTTP and
  the terminal. It reads report formats through the `gaffer_parsers` crate.

## Numbers

The library computes without floating point. Durations are nanoseconds, percentiles and means are
hundredths of a millisecond, confidences are multiples of 10⁻¹⁸, scores are whole points or
hundredths, and rates are fractions.

## A project's files

Functions that look at a project take a `ProjectTree`: the files and directories that a walk found,
with their texts and with paths relative to the project's root. Beside them it holds what is known
of the file system around the project, with paths from its root, for paths and imports that lead
there.
