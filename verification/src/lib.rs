//! RustPipe core: pipeline model, validation, DAG scheduling, the `.rustpipe`
//! DSL, matrix expansion, secret handling and the decision logic of the runners
//! and the server.
pub mod agent;
pub mod cache;
pub mod cli;
pub mod db;
pub mod error;
pub mod graph;
pub mod notify;
pub mod pipeline;
pub mod runner;
pub mod secrets;
pub mod server;
pub mod strmap;
pub mod text;
