# fsx-wasix

A filesystem exerciser. It performs operations on files and checks after each of them that
the files hold what they ought to. There are three ways to run it:

- exercisers, which do random operations on one file each, every worker in a directory of
  its own;
- coordinated scenarios, in which several workers share files under the eye of a
  coordinator that keeps a model of all of them;
- the oracle, which runs every chain of operations of a given length over two workers,
  writes down what each operation did, and compares such a report with another one.

Runs can also be asked for over HTTP, and oracle runs over a websocket.

## Layout

`src/` is the library. It decides what is done, models what files hold, and reads and writes
reports, manifests, requests and frames; it is written in Verus, and every function says in
its contract what it returns, by name where another crate computes it. It does no input or
output: where something has to be done to a file, a function says what, and another takes in
what came of it.

- Exercisers: `fsx`, `fsx_report`, `fsx_run`, with `oplog` and `xorshift`.
- Scenarios: `scenario`, `moves`, `script`, `coordinator`, `worker`, `world`, `expected`,
  `manifest`.
- Oracle, cases: `ops`, `schedule`, `normal`, `suite`, `selection`, `sample`, `exec`,
  `fixtures`, `listing`, `errors`, `catalog`, `oracle`.
- Oracle, reports: `codec`, `result`, `report`, `reader`, `gzip`, `compare`, `known`,
  `debug`, `verify`.
- Server: `params`, `http`, `sha`, `ws`.
- Shared: `cli`, `text`, `strings`, `numbers`, `paths`, `pathorder`, `hash`, `clock`.

What holds of several functions together is stated in functions whose names begin with
`law_`, in the modules whose names end in `_laws` and beside the functions concerned.

`app/` is the program: the command line, the files, the threads and the sockets. Weights of
operations and percentages are floating-point numbers and are handled there.

`tests/` runs the library on given values, with files that are kept in memory.
