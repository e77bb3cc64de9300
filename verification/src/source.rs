//! External-page sources and the plain inputs the pipelines consume.

use vstd::prelude::*;

use crate::time::Timestamp;

verus! {

/// Where an external page's content originates: a remote URL or a local
/// file path.
#[derive(Debug)]
pub enum PageSource {
    Remote(String),
    Local(String),
}

impl PageSource {
    /// The stable identifier of the source: the URL string for `Remote`,
    /// the path string for `Local`. It keys the manifest.
    pub open spec fn id_spec(self) -> Seq<char> {
        match self {
            PageSource::Remote(s) => s@,
            PageSource::Local(p) => p@,
        }
    }

    pub fn as_str(&self) -> (r: &str)
        ensures
            r@ == self.id_spec(),
    {
        match self {
            PageSource::Remote(s) => s.as_str(),
            PageSource::Local(p) => p.as_str(),
        }
    }
}

/// One page to be fetched and rendered outside the normal content tree;
/// `local_path` is where it lands under the output tree.
#[derive(Debug)]
pub struct ExternalPage {
    pub source_url: PageSource,
    pub local_path: String,
}

/// An external page whose content and origin-modified timestamp have
/// already been retrieved.
#[derive(Debug)]
pub struct ResolvedExternal {
    pub page: ExternalPage,
    pub content: String,
    pub origin_modified: Timestamp,
}

/// One regular file of the content tree, read in full, together with the
/// filesystem's last-modified time.
#[derive(Debug)]
pub struct ContentFile {
    pub path: String,
    pub content: Vec<u8>,
    pub origin_modified: Timestamp,
}

} // verus!
