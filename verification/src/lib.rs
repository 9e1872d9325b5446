//! Node-local high-availability core of a block-storage control plane:
//! debounced NVMe-oF path failure detection and live path replacement.

pub mod config;
pub mod detector;
pub mod device_error;
pub mod path_provider;
pub mod server;
pub mod text;
pub mod transport;
pub mod uri;
