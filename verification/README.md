# datafusion_distributed

Configuration, propagation and plan rewriting for running DataFusion queries on a cluster of
workers, verified with Verus.

- `src/` is the verified library.
  - `config_extension_ext` writes the option extensions of a session into HTTP headers on the
    coordinator and reads them back on the workers; `extension_laws` says what arrives.
  - `config_propagation` does the same for the scalar fields of the `DistributedConfig`.
  - `distributed_config` and `worker_resolver` hold the configuration and the way to the workers.
  - `large_batch` and `tune_shuffle_producer_batch_sizes` set batch sizes at hash-shuffle
    boundaries; `shuffle_laws` says what the rewriting keeps and changes.
  - `session` and `headers` state what the library relies on of DataFusion's sessions and tasks
    and of the `http` crate. `text`, `error` and `shared` are small helpers.
- `app/` is the side that implements DataFusion's traits, holds its plan nodes and computes with
  floating-point numbers.
- `tests/` runs the library with DataFusion and `http` linked.
