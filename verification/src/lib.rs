//! Discovery logic for Pico I/O devices: recognising candidate DNS-SD
//! services, probing their status endpoints, tracking candidates across
//! browse events and keeping the list of verified devices that a user sees.

pub mod text;
pub mod model;
pub mod identity;
pub mod probe;
pub mod discovery;
pub mod device_list;
pub mod cli;

pub use discovery::DiscoveryEvent;
pub use model::{ApiStatus, Device, RemovedDevice};
