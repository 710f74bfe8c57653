pub mod constants;
pub mod environment;
pub mod errors;
pub mod host_handler;
pub mod platform;
pub mod pod_handler;
pub mod text;
pub mod utils;
