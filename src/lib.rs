//! Provisioning of a WireGuard tunnel configuration against the PIA control plane:
//! catalog framing, region and port resolution, validation of the key-exchange
//! answer, and rendering of the final configuration file.
pub mod catalog;
pub mod config;
pub mod error;
pub mod keys;
pub mod net;
pub mod text;
