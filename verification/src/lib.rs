//! Core library of a service-instance manager: a registry of named
//! instances, each with an exclusively allocated network port, a generated
//! orchestration manifest, and a start/stop lifecycle.

pub mod errors;
pub mod lifecycle;
pub mod manifest;
pub mod paging;
pub mod ports;
pub mod record;
pub mod registry;
pub mod text;
pub mod util;
pub mod versions;
