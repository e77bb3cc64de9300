//! The error kinds of the pipeline.

use vstd::prelude::*;

verus! {

/// Every failure of the pipeline is one of these kinds; each carries a
/// message with enough context to identify the failing path, URL or key.
/// All of them are fatal to the running command: the library recovers from
/// nothing but a missing or malformed date header, which never surfaces
/// as an error at all.
#[derive(Debug)]
pub enum SiteError {
    /// A missing or invalid environment mapping, such as a deploy aimed at
    /// an environment that has no bucket.
    Config(String),
    /// A missing directory, or a failed read, write or delete.
    Filesystem(String),
    /// A failed remote retrieval.
    Fetch(String),
    /// A failure of the rendering capability.
    Render(String),
    /// A failed object-storage upload.
    Upload(String),
    /// A failed CDN cache invalidation.
    Invalidation(String),
    /// A corrupt persisted manifest.
    Manifest(String),
}

impl SiteError {
    pub open spec fn message_spec(self) -> Seq<char> {
        match self {
            SiteError::Config(m) => m@,
            SiteError::Filesystem(m) => m@,
            SiteError::Fetch(m) => m@,
            SiteError::Render(m) => m@,
            SiteError::Upload(m) => m@,
            SiteError::Invalidation(m) => m@,
            SiteError::Manifest(m) => m@,
        }
    }

    /// The diagnostic message carried by the error.
    pub fn message(&self) -> (r: &String)
        ensures
            r@ == self.message_spec(),
    {
        match self {
            SiteError::Config(m) => m,
            SiteError::Filesystem(m) => m,
            SiteError::Fetch(m) => m,
            SiteError::Render(m) => m,
            SiteError::Upload(m) => m,
            SiteError::Invalidation(m) => m,
            SiteError::Manifest(m) => m,
        }
    }
}

} // verus!
