pub mod text;
pub mod fields;
pub mod sys;
pub mod wrap;
pub mod log_pipeline;
pub mod log_stream;
pub mod pattern;
pub mod validation;
pub mod validators;
pub mod cli_error;
pub mod image;
pub mod taskgraph;
pub mod scheduler;
pub mod task_report;
pub mod workspace;
pub mod pmtool;
pub mod json;
pub mod deployr;
pub mod dtool;
pub mod table_ops;
pub mod table_cli;
pub mod dataframe;
pub mod ecs;
pub mod generational;
pub mod notify;
pub mod notify_basic;
pub mod report;
pub mod taskr;
pub mod tcp;
pub mod tcp_states;
pub mod image_chain;
pub mod rows;
pub mod boxed;
pub mod docs;
