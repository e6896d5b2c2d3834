pub mod config;
pub mod message;
pub mod references;
pub mod request_file;
pub use config::{parse_config, ConfigDecodeError, DecodedConfig};
pub use message::{parse_request, parse_response};
pub use references::{parse_expressions, parse_inner_references, parse_references};
pub use request_file::{parse, parse_checked};
