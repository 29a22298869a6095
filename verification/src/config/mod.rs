//! The client's configuration and how it is read from text.
pub mod errors;
pub mod types;

pub use errors::ConfigError;
pub use types::{create_config, create_config_dict, Config};
