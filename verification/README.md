# pipe_governor

Tuning of a three-stage CNN inference pipeline (little CPU cluster, big CPU
cluster, GPU) on a big.LITTLE board.

- `src/` is the verified library: frequency tables (`consts`), the clusters
  and their frequency command (`hardware`), the pipeline's command line and
  the parsing of its report (`pipe_all`, with the number syntax in
  `numeral` and decimal rendering in `text`), and the strategies
  (`strategies`): the demo search as a step function with its termination and
  ordering laws, and the run plans of the two benchmarks.
- `app/` is the program around it: it runs the shell commands and the
  pipeline, compares float measurements with the targets, and writes the
  benchmark results as JSON.
- `tests/` exercises the library on concrete inputs.
