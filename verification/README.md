# datafusion_distributed

The planning and protocol logic of a distributed query engine on top of DataFusion, written in Rust
and proved with Verus.

A physical plan is cut into stages. Each stage runs in several tasks, and the stages exchange their
partitions over the network. The library decides where stages end, in how many tasks they run, how
the partitions of one stage are assigned to the tasks of the next, and where local parallelism is
added behind a shuffle. It also holds the protocol between stages: which requests are sent to which
workers, how messages are handed out to partitions, and how batches are encoded into one stream.

## Layout

- `src/`: the verified library.
  - `exchange_assignment`: which consumer task reads which partition of which producer task.
  - `inject_network_boundaries`, with `task_count`, `task_estimator`, `scale_factor`,
    `union_layout`, `network_boundary` and `network_coalesce`: cutting a plan into stages.
  - `insert_local_exchange_split`, with `split_input`, `distribution` and `config`: local splits
    behind shuffles.
  - `inject_laws`, `number_laws`, `shape_laws`, `split_laws`: what holds of planned queries as a
    whole.
  - `worker_connection_pool`, `request_headers`, `stage`: connections to workers.
  - `multiplexed_flight`, with `flight_schema`, `schema_message`, `header_size`,
    `app_metadata`, `memory_footprint`, `select_all` and `data_type`: encoding of batches.
  - `benchmark_queries`, `benchmark_run`, `tpch`: the benchmark programs.
  - `plan`, `error`, `error_messages`, `arithmetic`, `text`: shared types and helpers.
- `tests/`: tests of the library.
- `app/`: what connects the library to DataFusion, Arrow Flight, the file system and the clock.

## Trust

The calls into other crates stand in small functions marked `external_body`. The comment above each
of them names the function that it calls and says what is believed of it without proof.
