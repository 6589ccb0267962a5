//! A concurrent TCP port scanner's engine: service classification from
//! untrusted bytes, admission control, result ordering and result framing.

pub mod budget;
pub mod detect;
pub mod journal;
pub mod ports;
pub mod rate;
pub mod scan;
pub mod settings;
pub mod targets;
pub mod text;
pub mod types;

pub use types::{FileConfig, PortSpec, Protocol, ScanResult};
pub use detect::{detect_from_bytes, tw_contains_ci};
pub use ports::parse_ports;
pub use rate::RateLimiter;
pub use targets::parse_targets;
pub use text::{escape_nonprintable, hex_preview, to_safe_string};
