//! The build manifest: the persisted record of every produced artifact,
//! keyed by the origin identifier of its source.

use vstd::prelude::*;

use crate::environment::Environment;
use crate::time::Timestamp;

verus! {

/// One record per produced artifact: where it came from, when the origin
/// was last modified, where it was built, and where it lives relative to
/// the output tree.
#[derive(Debug)]
pub struct ManifestFile {
    /// The identifier of the source: a URL, or a content-tree path.
    pub origin: String,
    /// When the origin was last modified.
    pub origin_modified: Timestamp,
    /// The produced file: the build directory joined with `destination`.
    pub built_filepath: String,
    /// The path of the artifact relative to the output tree.
    pub destination: String,
}

/// The mathematical view of one manifest record.
#[verifier::ext_equal]
pub struct ManifestFileV {
    pub origin: Seq<char>,
    pub origin_modified: Timestamp,
    pub built_filepath: Seq<char>,
    pub destination: Seq<char>,
}

impl View for ManifestFile {
    type V = ManifestFileV;

    open spec fn view(&self) -> ManifestFileV {
        ManifestFileV {
            origin: self.origin@,
            origin_modified: self.origin_modified,
            built_filepath: self.built_filepath@,
            destination: self.destination@,
        }
    }
}

/// The first index among `files` of the record keyed `origin`, if any.
pub open spec fn find_origin(files: Seq<ManifestFileV>, origin: Seq<char>) -> Option<int>
    decreases files.len(),
{
    if files.len() == 0 {
        None
    } else if files[0].origin == origin {
        Some(0)
    } else {
        match find_origin(files.drop_first(), origin) {
            None => None,
            Some(i) => Some(i + 1),
        }
    }
}

pub proof fn lemma_find_origin(files: Seq<ManifestFileV>, origin: Seq<char>)
    ensures
        match find_origin(files, origin) {
            Some(i) => 0 <= i < files.len() && files[i].origin == origin && (forall|j: int|
                0 <= j < i ==> files[j].origin != origin),
            None => forall|j: int| 0 <= j < files.len() ==> files[j].origin != origin,
        },
    decreases files.len(),
{
    if files.len() == 0 {
    } else if files[0].origin == origin {
    } else {
        let t = files.drop_first();
        lemma_find_origin(t, origin);
        match find_origin(t, origin) {
            None => {
                assert forall|j: int| 0 <= j < files.len() implies files[j].origin != origin by {
                    if j > 0 {
                        assert(t[j - 1] == files[j]);
                    }
                }
            },
            Some(i) => {
                assert(t[i] == files[i + 1]);
                assert forall|j: int| 0 <= j < i + 1 implies files[j].origin != origin by {
                    if j > 0 {
                        assert(t[j - 1] == files[j]);
                    }
                }
            },
        }
    }
}

pub proof fn lemma_find_origin_is(files: Seq<ManifestFileV>, origin: Seq<char>, i: int)
    requires
        0 <= i < files.len(),
        files[i].origin == origin,
        forall|j: int| 0 <= j < i ==> files[j].origin != origin,
    ensures
        find_origin(files, origin) == Some(i),
{
    lemma_find_origin(files, origin);
}

/// `files` with the record `f` upserted: the first record keyed like `f`
/// is replaced, and when none is, `f` is appended. Reprocessing a source
/// within one build pass therefore overwrites its earlier record.
pub open spec fn upsert(files: Seq<ManifestFileV>, f: ManifestFileV) -> Seq<ManifestFileV> {
    match find_origin(files, f.origin) {
        None => files.push(f),
        Some(i) => files.update(i, f),
    }
}

/// The sole persisted state of the pipeline: the environment and output
/// directory it was built for, and one record per produced artifact.
#[derive(Debug)]
pub struct SiteManifest {
    pub environment: Environment,
    pub build_directory: String,
    pub files: Vec<ManifestFile>,
}

impl SiteManifest {
    /// The record views, in iteration order.
    pub open spec fn files_view(&self) -> Seq<ManifestFileV> {
        self.files@.map(|i: int, f: ManifestFile| f@)
    }

    /// Well-formed: no two records share an origin.
    pub open spec fn wf(&self) -> bool {
        forall|i: int, j: int|
            #![trigger self.files_view()[i], self.files_view()[j]]
            0 <= i < j < self.files_view().len() ==> self.files_view()[i].origin
                != self.files_view()[j].origin
    }

    /// An empty manifest bound to an environment and an output directory.
    pub fn new(environment: Environment, build_directory: String) -> (r: SiteManifest)
        ensures
            r.environment == environment,
            r.build_directory@ == build_directory@,
            r.files_view() == Seq::<ManifestFileV>::empty(),
            r.wf(),
    {
        let r = SiteManifest { environment, build_directory, files: Vec::new() };
        proof {
            assert(r.files_view() =~= Seq::<ManifestFileV>::empty());
        }
        r
    }

    /// What cleaning a manifest leaves behind: the same environment and
    /// output directory, and an empty record map.
    pub open spec fn cleaned(pre: SiteManifest, post: SiteManifest) -> bool {
        &&& post.environment == pre.environment
        &&& post.build_directory@ == pre.build_directory@
        &&& post.files_view() == Seq::<ManifestFileV>::empty()
    }

    /// Reset the record map to empty. The caller that owns the filesystem
    /// wipes and recreates the output directory alongside this; the map is
    /// empty afterwards no matter how often cleaning runs.
    pub fn clean(&mut self)
        ensures
            SiteManifest::cleaned(*old(self), *final(self)),
            final(self).wf(),
    {
        self.files = Vec::new();
        proof {
            assert(self.files_view() =~= Seq::<ManifestFileV>::empty());
        }
    }

    /// Law (clean idempotence): cleaning twice in a row leaves the record
    /// map empty both times, and the manifest stays bound to its
    /// environment and output directory throughout.
    pub proof fn lemma_clean_idempotent(m0: SiteManifest, m1: SiteManifest, m2: SiteManifest)
        requires
            SiteManifest::cleaned(m0, m1),
            SiteManifest::cleaned(m1, m2),
        ensures
            m1.files_view() == Seq::<ManifestFileV>::empty(),
            m2.files_view() == Seq::<ManifestFileV>::empty(),
            m2.environment == m0.environment,
            m2.build_directory@ == m0.build_directory@,
    {
    }

    /// Upsert one record, keyed by `origin`: an existing record with the
    /// same origin is overwritten, any other record is untouched.
    pub fn record(
        &mut self,
        origin: String,
        origin_modified: Timestamp,
        built_filepath: String,
        destination: String,
    )
        ensures
            final(self).environment == old(self).environment,
            final(self).build_directory@ == old(self).build_directory@,
            final(self).files_view() == upsert(
                old(self).files_view(),
                ManifestFileV {
                    origin: origin@,
                    origin_modified,
                    built_filepath: built_filepath@,
                    destination: destination@,
                },
            ),
            old(self).wf() ==> final(self).wf(),
    {
        let ghost target = ManifestFileV {
            origin: origin@,
            origin_modified,
            built_filepath: built_filepath@,
            destination: destination@,
        };
        let f = ManifestFile { origin, origin_modified, built_filepath, destination };
        proof {
            assert(f@ =~= target);
        }
        self.upsert_record(f);
    }

    /// Upsert one record into the map, keyed by its origin.
    fn upsert_record(&mut self, f: ManifestFile)
        ensures
            final(self).environment == old(self).environment,
            final(self).build_directory@ == old(self).build_directory@,
            final(self).files_view() == upsert(old(self).files_view(), f@),
            old(self).wf() ==> final(self).wf(),
    {
        let ghost files0 = self.files_view();
        let ghost target = f@;
        let mut i: usize = 0;
        while i < self.files.len()
            invariant
                i <= self.files@.len(),
                self == old(self),
                files0 == self.files_view(),
                target == (ManifestFileV {
                    origin: f.origin@,
                    origin_modified: f.origin_modified,
                    built_filepath: f.built_filepath@,
                    destination: f.destination@,
                }),
                forall|j: int| 0 <= j < i ==> #[trigger] files0[j].origin != target.origin,
            decreases self.files@.len() - i,
        {
            if self.files[i].origin == f.origin {
                proof {
                    assert(files0[i as int] == self.files@[i as int]@);
                    lemma_find_origin_is(files0, target.origin, i as int);
                }
                self.files.remove(i);
                self.files.insert(i, f);
                proof {
                    assert(self.files_view() =~= files0.update(i as int, target));
                    assert(self.files_view() == upsert(files0, target));
                    if old(self).wf() {
                        assert forall|p: int, q: int|
                            0 <= p < q < self.files_view().len() implies self.files_view()[p].origin
                            != self.files_view()[q].origin by {
                            assert(files0[p].origin != files0[q].origin);
                            assert(self.files_view()[p] == if p == i as int {
                                target
                            } else {
                                files0[p]
                            });
                            assert(self.files_view()[q] == if q == i as int {
                                target
                            } else {
                                files0[q]
                            });
                            assert(target.origin == files0[i as int].origin);
                        }
                    }
                }
                return ;
            }
            proof {
                assert(files0[i as int] == self.files@[i as int]@);
            }
            i += 1;
        }
        proof {
            lemma_find_origin(files0, target.origin);
        }
        self.files.push(f);
        proof {
            assert(self.files_view() =~= files0.push(target));
            assert(self.files_view() == upsert(files0, target));
            if old(self).wf() {
                assert forall|p: int, q: int|
                    0 <= p < q < self.files_view().len() implies self.files_view()[p].origin
                    != self.files_view()[q].origin by {
                    if q < files0.len() {
                        assert(files0[p].origin != files0[q].origin);
                    } else {
                        assert(self.files_view()[q] == target);
                        assert(files0[p].origin != target.origin);
                    }
                }
            }
        }
    }

    /// Whether no two records share an origin; lets an unverified caller
    /// test `wf` before trusting a reloaded manifest.
    pub fn is_wf(&self) -> (r: bool)
        ensures
            r == self.wf(),
    {
        let n = self.files.len();
        let mut i: usize = 0;
        while i < n
            invariant
                i <= n,
                n == self.files@.len(),
                forall|p: int, q: int|
                    #![trigger self.files_view()[p], self.files_view()[q]]
                    0 <= p < q < n && p < i ==> self.files_view()[p].origin
                        != self.files_view()[q].origin,
            decreases n - i,
        {
            let mut j = i + 1;
            while j < n
                invariant
                    i < j <= n,
                    n == self.files@.len(),
                    forall|q: int|
                        i < q < j ==> #[trigger] self.files_view()[q].origin
                            != self.files_view()[i as int].origin,
                decreases n - j,
            {
                if self.files[i].origin == self.files[j].origin {
                    proof {
                        assert(self.files_view()[i as int] == self.files@[i as int]@);
                        assert(self.files_view()[j as int] == self.files@[j as int]@);
                        assert(self.files_view()[i as int].origin == self.files_view()[
                            j as int
                        ].origin);
                        assert(!self.wf());
                    }
                    return false;
                }
                proof {
                    assert(self.files_view()[j as int] == self.files@[j as int]@);
                    assert(self.files_view()[i as int] == self.files@[i as int]@);
                }
                j += 1;
            }
            i += 1;
        }
        true
    }
}

} // verus!
