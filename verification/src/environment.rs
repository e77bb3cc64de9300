//! The deployment environments and their names.

use vstd::prelude::*;

use crate::errors::SiteError;
use crate::text::str_eq;

verus! {

/// The deployment environment a site is built for and deployed to. It
/// selects which configuration values (root URL, bucket, CDN distribution)
/// apply; `Local` has neither bucket nor distribution.
#[derive(Clone, Copy, Debug, PartialEq, Eq, Structural, Hash)]
pub enum Environment {
    Local,
    Staging,
    Production,
}

impl Default for Environment {
    fn default() -> (r: Self)
        ensures
            r == Environment::Local,
    {
        Environment::Local
    }
}

impl Environment {
    pub open spec fn name_spec(self) -> Seq<char> {
        match self {
            Environment::Local => "local"@,
            Environment::Staging => "staging"@,
            Environment::Production => "production"@,
        }
    }

    /// The lower-case name of the environment, as shown in messages and
    /// used in the manifest file name.
    pub fn name(&self) -> (r: &'static str)
        ensures
            r@ == self.name_spec(),
    {
        match self {
            Environment::Local => "local",
            Environment::Staging => "staging",
            Environment::Production => "production",
        }
    }

    /// The environment named `s`; exactly the three known names are
    /// accepted, anything else is a configuration error.
    pub fn from_name(s: &str) -> (r: Result<Environment, SiteError>)
        ensures
            r is Ok <==> (s@ == "local"@ || s@ == "staging"@ || s@ == "production"@),
            r matches Ok(e) ==> e.name_spec() == s@,
            r matches Err(e) ==> e is Config,
    {
        if str_eq(s, "local") {
            Ok(Environment::Local)
        } else if str_eq(s, "staging") {
            Ok(Environment::Staging)
        } else if str_eq(s, "production") {
            Ok(Environment::Production)
        } else {
            Err(SiteError::Config(String::from_str("unsupported environment")))
        }
    }
}

/// The name of the per-environment manifest file: the environment's name
/// followed by `.yaml`.
pub fn manifest_file_name(e: Environment) -> (r: String)
    ensures
        r@ == e.name_spec() + ".yaml"@,
{
    let mut out = e.name().to_owned();
    out.append(".yaml");
    out
}

} // verus!
