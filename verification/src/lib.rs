//! Plugin SDK types for OpenStranded: the content registry, the service
//! registry, API versions and the declarations plugins hand to the engine.

pub mod contributions;
pub mod error;
pub mod game_api;
pub mod registry;
pub mod service;
pub mod strmap;
pub mod version;

pub use contributions::{Contribution, ResourceDecl, SystemDecl};
pub use error::ServiceError;
pub use game_api::LogLevel;
pub use registry::{Registry, RegistryEntry};
pub use service::ServiceRegistry;
pub use strmap::StrMap;
pub use version::{ApiVersion, VersionMismatch};
