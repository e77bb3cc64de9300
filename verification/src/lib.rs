//! Manifest-driven static-site build and deploy library.
//!
//! The library is the verified core of a site pipeline: path mapping,
//! response-header and timestamp resolution, the build manifest, and the
//! build and deploy orchestration with its fail-fast semantics. Filesystem,
//! network and cloud calls live outside the library and exchange plain
//! values with it; the few outside computations the core leans on (date
//! parsing, the current time, content-type guessing) stand behind small
//! trusted wrappers.

pub mod config;
pub mod deploy;
pub mod environment;
pub mod errors;
pub mod headers;
pub mod manifest;
pub mod paths;
pub mod pipeline;
pub mod source;
pub mod text;
pub mod time;

pub use config::{EnvSettings, RenderError, Renderer, SiteConfig};
pub use deploy::{DeployAction, DeployState, InvalidationRequest, UploadJob};
pub use environment::Environment;
pub use errors::SiteError;
pub use manifest::{ManifestFile, SiteManifest};
pub use paths::pop_parent_replace_ext;
pub use pipeline::{ContentFileV, FileContent, FileWrite, ResolvedExternalV};
pub use source::{ContentFile, ExternalPage, PageSource, ResolvedExternal};
pub use time::Timestamp;
