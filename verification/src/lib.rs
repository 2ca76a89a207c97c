pub mod app_metadata;
pub mod arithmetic;
pub mod benchmark_queries;
pub mod benchmark_run;
pub mod boundary_laws;
pub mod config;
pub mod connection_laws;
pub mod data_type;
pub mod distribution;
pub mod error;
pub mod error_messages;
pub mod exchange_assignment;
pub mod flight_schema;
pub mod header_size;
pub mod inject_laws;
pub mod inject_network_boundaries;
pub mod insert_local_exchange_split;
pub mod layout_laws;
pub mod memory_footprint;
pub mod multiplexed_flight;
pub mod network_boundary;
pub mod network_coalesce;
pub mod number_laws;
pub mod operation_laws;
pub mod plan;
pub mod planning_laws;
pub mod query_laws;
pub mod recording_laws;
pub mod report_laws;
pub mod request_headers;
pub mod scale_factor;
pub mod schema_laws;
pub mod schema_message;
pub mod select_all;
pub mod shape_laws;
pub mod split_input;
pub mod split_laws;
pub mod stage;
pub mod stream_laws;
pub mod success_laws;
pub mod task_count;
pub mod task_estimator;
pub mod text;
pub mod tpch;
pub mod union_layout;
pub mod widening_laws;
pub mod worker_connection_pool;
