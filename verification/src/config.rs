//! The injected configuration and rendering capabilities.

use vstd::prelude::*;

use crate::environment::Environment;

verus! {

/// The configuration values of one environment.
#[derive(Debug)]
pub struct EnvSettings {
    /// The root URL the deployed site is served under.
    pub root_url: String,
    /// The object-storage bucket artifacts are uploaded to, if any.
    pub s3_bucket: Option<String>,
    /// The CDN distribution whose cache is invalidated, if any.
    pub cloudfront_distro: Option<String>,
}

/// The statically configurable parts of the site: one set of values per
/// environment, supplied to the pipelines at construction time. The local
/// environment is expected to carry neither bucket nor distribution.
#[derive(Debug)]
pub struct SiteConfig {
    pub local: EnvSettings,
    pub staging: EnvSettings,
    pub production: EnvSettings,
}

impl SiteConfig {
    pub open spec fn settings_spec(self, e: Environment) -> EnvSettings {
        match e {
            Environment::Local => self.local,
            Environment::Staging => self.staging,
            Environment::Production => self.production,
        }
    }

    /// The configuration values that apply to `e`.
    pub fn settings(&self, e: Environment) -> (r: &EnvSettings)
        ensures
            *r == self.settings_spec(e),
    {
        match e {
            Environment::Local => &self.local,
            Environment::Staging => &self.staging,
            Environment::Production => &self.production,
        }
    }

    /// The root URL for `e`.
    pub fn root_url(&self, e: Environment) -> (r: &String)
        ensures
            r@ == self.settings_spec(e).root_url@,
    {
        &self.settings(e).root_url
    }

    /// The bucket for `e`, if one is configured.
    pub fn s3_bucket(&self, e: Environment) -> (r: &Option<String>)
        ensures
            *r == self.settings_spec(e).s3_bucket,
    {
        &self.settings(e).s3_bucket
    }

    /// The CDN distribution for `e`, if one is configured.
    pub fn cloudfront_distro(&self, e: Environment) -> (r: &Option<String>)
        ensures
            *r == self.settings_spec(e).cloudfront_distro,
    {
        &self.settings(e).cloudfront_distro
    }
}

/// A failure of the injected rendering capability.
#[derive(Debug)]
pub struct RenderError {
    pub message: String,
}

/// The rendering capability: it turns raw content into the final page
/// string for the given environment, with an extra style class for pages
/// that are framed specially. The pipeline never inspects the markup
/// language or the output format; it only requires this contract, and a
/// rendering failure aborts the build.
pub trait Renderer {
    fn render_content(
        cfg: &SiteConfig,
        environment: Environment,
        content: String,
        extra_classes: &str,
    ) -> Result<String, RenderError>;
}

} // verus!
