//! The deploy pipeline as a verified decision core. The bucket is resolved
//! before any work; each artifact is uploaded in manifest order; and the
//! single cache invalidation is issued only when every upload succeeded —
//! one failed upload stops the deploy for good.

use vstd::prelude::*;

use crate::config::SiteConfig;
use crate::errors::SiteError;
use crate::manifest::SiteManifest;

verus! {

/// What one upload needs: the bucket, the object key, the local file to
/// read, and the content type to tag it with.
#[derive(Debug)]
pub struct UploadJob {
    pub bucket: String,
    pub key: String,
    pub filepath: String,
    pub content_type: String,
}

/// The single cache invalidation that ends a deploy: the distribution, one
/// absolute site path per artifact, and a caller reference naming the
/// deployed revision.
#[derive(Debug)]
pub struct InvalidationRequest {
    pub distribution_id: String,
    pub paths: Vec<String>,
    pub caller_reference: String,
}

/// What a deploy does next: upload one artifact, issue the invalidation,
/// or stop.
#[derive(Debug)]
pub enum DeployAction {
    Upload(UploadJob),
    Invalidate(InvalidationRequest),
    Done,
}

/// The content type that the extension of `path` maps to.
pub uninterp spec fn mime_of(path: Seq<char>) -> Seq<char>;

/// Relies on new_mime_guess's `from_path` followed by
/// `first_or_octet_stream`: a deterministic table lookup on the path's
/// extension, falling back to the generic binary type; `essence_str` only
/// reads the chosen type out.
#[verifier::external_body]
fn guess_content_type(path: &str) -> (r: String)
    ensures
        r@ == mime_of(path@),
{
    new_mime_guess::from_path(path).first_or_octet_stream().essence_str().to_owned()
}

/// An ASCII whitespace character other than the space itself; these
/// disappear from a default upload key.
pub open spec fn dropped_whitespace(c: char) -> bool {
    c == '\t' || c == '\n' || c == '\r' || c == '\u{b}' || c == '\u{c}'
}

/// One character of a sanitized file name: a space becomes an underscore,
/// other ASCII whitespace disappears, anything else stays.
pub open spec fn sanitize_char(c: char) -> Seq<char> {
    if c == ' ' {
        seq!['_']
    } else if dropped_whitespace(c) {
        Seq::empty()
    } else {
        seq![c]
    }
}

/// A file name sanitized character by character.
pub open spec fn sanitized(s: Seq<char>) -> Seq<char>
    decreases s.len(),
{
    if s.len() == 0 {
        Seq::empty()
    } else {
        sanitized(s.drop_last()) + sanitize_char(s.last())
    }
}

proof fn lemma_sanitized_push(s: Seq<char>, c: char)
    ensures
        sanitized(s.push(c)) == sanitized(s) + sanitize_char(c),
{
    assert(s.push(c).drop_last() =~= s);
    assert(s.push(c).last() == c);
}

proof fn lemma_sanitized_plain(s: Seq<char>)
    requires
        forall|j: int| 0 <= j < s.len() ==> s[j] != ' ' && !dropped_whitespace(s[j]),
    ensures
        sanitized(s) == s,
    decreases s.len(),
{
    if s.len() > 0 {
        lemma_sanitized_plain(s.drop_last());
        assert(sanitized(s) =~= s);
    }
}

proof fn lemma_sanitized_append(a: Seq<char>, b: Seq<char>)
    ensures
        sanitized(a + b) == sanitized(a) + sanitized(b),
    decreases b.len(),
{
    if b.len() == 0 {
        assert(a + b =~= a);
        assert(sanitized(a) + sanitized(b) =~= sanitized(a));
    } else {
        lemma_sanitized_append(a, b.drop_last());
        assert((a + b).drop_last() =~= a + b.drop_last());
        assert((a + b).last() == b.last());
        assert(sanitized(a) + (sanitized(b.drop_last()) + sanitize_char(b.last())) =~= (sanitized(a)
            + sanitized(b.drop_last())) + sanitize_char(b.last()));
    }
}

/// The default key for an uploaded asset: `uploads/` followed by the file
/// name with every space turned into an underscore and every other ASCII
/// whitespace character dropped.
pub fn default_upload_key(filename: &str) -> (r: String)
    ensures
        r@ == "uploads/"@ + sanitized(filename@),
{
    let n = filename.unicode_len();
    let mut out = String::from_str("uploads/");
    let mut run_start: usize = 0;
    let mut i: usize = 0;
    proof {
        assert(filename@.take(0) =~= Seq::<char>::empty());
        assert(out@ =~= "uploads/"@ + sanitized(filename@.take(0)));
    }
    while i < n
        invariant
            run_start <= i <= n,
            n as nat == filename@.len(),
            out@ == "uploads/"@ + sanitized(filename@.take(run_start as int)),
            forall|j: int|
                run_start <= j < i ==> filename@[j] != ' ' && !dropped_whitespace(filename@[j]),
        decreases n - i,
    {
        let c = filename.get_char(i);
        let special = c == ' ' || c == '\t' || c == '\n' || c == '\r' || c == '\u{b}' || c
            == '\u{c}';
        if special {
            let ghost run = filename@.subrange(run_start as int, i as int);
            out.append(filename.substring_char(run_start, i));
            proof {
                assert(filename@.take(i as int) =~= filename@.take(run_start as int) + run);
                lemma_sanitized_append(filename@.take(run_start as int), run);
                lemma_sanitized_plain(run);
                assert(filename@.take(i as int + 1) =~= filename@.take(i as int).push(c));
                lemma_sanitized_push(filename@.take(i as int), c);
            }
            if c == ' ' {
                out.append("_");
                proof {
                    reveal_strlit("_");
                    assert("_"@ =~= sanitize_char(c));
                    assert(out@ =~= "uploads/"@ + sanitized(filename@.take(i as int + 1)));
                }
            } else {
                proof {
                    assert(sanitize_char(c) =~= Seq::<char>::empty());
                    assert(out@ =~= "uploads/"@ + sanitized(filename@.take(i as int + 1)));
                }
            }
            run_start = i + 1;
        }
        i += 1;
    }
    let ghost run = filename@.subrange(run_start as int, n as int);
    out.append(filename.substring_char(run_start, n));
    proof {
        assert(filename@.take(n as int) =~= filename@.take(run_start as int) + run);
        lemma_sanitized_append(filename@.take(run_start as int), run);
        lemma_sanitized_plain(run);
        assert(filename@.take(n as int) =~= filename@);
        assert(out@ =~= "uploads/"@ + sanitized(filename@));
    }
    out
}

/// The reference attached to an invalidation: the fixed task prefix and
/// the source-control revision being deployed.
pub fn caller_reference(revision: &str) -> (r: String)
    ensures
        r@ == "xtask-"@ + revision@,
{
    let mut out = String::from_str("xtask-");
    out.append(revision);
    out
}

/// The progress of one deploy: how many artifacts are uploaded so far,
/// whether one failed, and whether the cache was already invalidated.
#[derive(Clone, Copy, Debug, PartialEq, Eq, Structural)]
pub struct DeployState {
    pub uploaded: usize,
    pub upload_failed: bool,
    pub invalidated: bool,
}

/// What a deploy decides next, at the level of the model.
pub enum DeployDecision {
    UploadNext(int),
    Invalidate,
    Reject,
    Done,
}

/// The decision a deploy takes in state `st` over a manifest of
/// `files_len` artifacts: stop once something failed or the invalidation
/// went out, upload the next artifact while any remain, and invalidate
/// exactly once after the last — each step only with the configuration it
/// needs.
pub open spec fn deploy_decision(
    files_len: int,
    bucket_configured: bool,
    distro_configured: bool,
    st: DeployState,
) -> DeployDecision {
    if st.upload_failed || st.invalidated {
        DeployDecision::Done
    } else if (st.uploaded as int) < files_len {
        if bucket_configured {
            DeployDecision::UploadNext(st.uploaded as int)
        } else {
            DeployDecision::Reject
        }
    } else {
        if distro_configured {
            DeployDecision::Invalidate
        } else {
            DeployDecision::Reject
        }
    }
}

/// Law (fail-fast deploy): once an upload has failed, the deploy stops;
/// whatever else the state and the configuration hold, the decision is
/// never the invalidation.
pub proof fn lemma_failed_deploy_never_invalidates(
    files_len: int,
    bucket_configured: bool,
    distro_configured: bool,
    st: DeployState,
)
    requires
        st.upload_failed,
    ensures
        deploy_decision(files_len, bucket_configured, distro_configured, st)
            == DeployDecision::Done,
        !(deploy_decision(files_len, bucket_configured, distro_configured, st)
            is Invalidate),
{
}

impl DeployState {
    /// The state a deploy starts in.
    pub open spec fn initial() -> DeployState {
        DeployState { uploaded: 0, upload_failed: false, invalidated: false }
    }

    /// Record the outcome of one upload: a success advances the count, a
    /// failure marks the deploy failed for good.
    pub fn mark_upload(&mut self, ok: bool)
        requires
            old(self).uploaded < usize::MAX,
        ensures
            ok ==> final(self).uploaded == old(self).uploaded + 1,
            !ok ==> final(self).uploaded == old(self).uploaded,
            final(self).upload_failed == (old(self).upload_failed || !ok),
            final(self).invalidated == old(self).invalidated,
    {
        if ok {
            self.uploaded = self.uploaded + 1;
        } else {
            self.upload_failed = true;
        }
    }

    /// Record that the invalidation went out.
    pub fn mark_invalidated(&mut self)
        ensures
            final(self).uploaded == old(self).uploaded,
            final(self).upload_failed == old(self).upload_failed,
            final(self).invalidated,
    {
        self.invalidated = true;
    }
}

impl SiteManifest {
    /// Resolve the bucket a deploy uploads to, before any other work; an
    /// environment without one (such as the local environment) rejects the
    /// deploy with a configuration error and nothing else happens.
    pub fn deploy_begin(&self, cfg: &SiteConfig) -> (r: Result<DeployState, SiteError>)
        ensures
            r is Ok <==> cfg.settings_spec(self.environment).s3_bucket is Some,
            r matches Ok(st) ==> st == DeployState::initial(),
            r matches Err(e) ==> e is Config,
    {
        if cfg.settings(self.environment).s3_bucket.is_some() {
            Ok(DeployState { uploaded: 0, upload_failed: false, invalidated: false })
        } else {
            Err(
                SiteError::Config(
                    String::from_str("deploy requires an environment with a bucket"),
                ),
            )
        }
    }

    /// One absolute site path per artifact, in manifest order: the
    /// destination behind a leading slash.
    pub fn invalidation_paths(&self) -> (r: Vec<String>)
        ensures
            r@.len() == self.files_view().len(),
            forall|q: int|
                0 <= q < r@.len() ==> #[trigger] r@[q]@ == seq!['/']
                    + self.files_view()[q].destination,
    {
        let mut out: Vec<String> = Vec::new();
        let mut i: usize = 0;
        while i < self.files.len()
            invariant
                i <= self.files@.len(),
                out@.len() == i,
                forall|q: int|
                    0 <= q < i ==> #[trigger] out@[q]@ == seq!['/']
                        + self.files_view()[q].destination,
            decreases self.files@.len() - i,
        {
            let mut p = String::from_str("/");
            p.append(self.files[i].destination.as_str());
            proof {
                reveal_strlit("/");
                assert("/"@ =~= seq!['/']);
                assert(self.files_view()[i as int] == self.files@[i as int]@);
                assert(p@ =~= seq!['/'] + self.files_view()[i as int].destination);
            }
            out.push(p);
            i += 1;
        }
        out
    }

    /// The next thing a deploy does, given its progress: the upload jobs
    /// in manifest order while artifacts remain, then the one invalidation
    /// carrying every artifact's site path and the revision reference, and
    /// nothing once it went out or an upload failed. A missing bucket or
    /// distribution, where the step needs one, is a configuration error.
    pub fn deploy_next(&self, cfg: &SiteConfig, revision: &str, st: &DeployState) -> (r: Result<
        DeployAction,
        SiteError,
    >)
        ensures
            ({
                let settings = cfg.settings_spec(self.environment);
                let d = deploy_decision(
                    self.files_view().len() as int,
                    settings.s3_bucket is Some,
                    settings.cloudfront_distro is Some,
                    *st,
                );
                match d {
                    DeployDecision::Done => r matches Ok(a) && a is Done,
                    DeployDecision::Reject => r matches Err(e) && e is Config,
                    DeployDecision::UploadNext(k) => r matches Ok(a) && (a
                        matches DeployAction::Upload(j) && j.bucket@ == settings.s3_bucket.unwrap()@
                        && j.key@ == self.files_view()[k].destination && j.filepath@
                        == self.files_view()[k].built_filepath && j.content_type@ == mime_of(
                        self.files_view()[k].built_filepath,
                    )),
                    DeployDecision::Invalidate => r matches Ok(a) && (a
                        matches DeployAction::Invalidate(req) && req.distribution_id@
                        == settings.cloudfront_distro.unwrap()@ && req.caller_reference@
                        == "xtask-"@ + revision@ && req.paths@.len() == self.files_view().len()
                        && (forall|q: int|
                        0 <= q < req.paths@.len() ==> #[trigger] req.paths@[q]@ == seq!['/']
                            + self.files_view()[q].destination)),
                }
            }),
    {
        if st.upload_failed || st.invalidated {
            return Ok(DeployAction::Done);
        }
        if st.uploaded < self.files.len() {
            match &cfg.settings(self.environment).s3_bucket {
                Some(b) => {
                    let mf = &self.files[st.uploaded];
                    proof {
                        assert(self.files_view()[st.uploaded as int] == self.files@[st.uploaded
                            as int]@);
                    }
                    let content_type = guess_content_type(mf.built_filepath.as_str());
                    Ok(
                        DeployAction::Upload(
                            UploadJob {
                                bucket: b.clone(),
                                key: mf.destination.clone(),
                                filepath: mf.built_filepath.clone(),
                                content_type,
                            },
                        ),
                    )
                },
                None => Err(
                    SiteError::Config(
                        String::from_str("upload requires an environment with a bucket"),
                    ),
                ),
            }
        } else {
            match &cfg.settings(self.environment).cloudfront_distro {
                Some(d) => {
                    let paths = self.invalidation_paths();
                    Ok(
                        DeployAction::Invalidate(
                            InvalidationRequest {
                                distribution_id: d.clone(),
                                paths,
                                caller_reference: caller_reference(revision),
                            },
                        ),
                    )
                },
                None => Err(
                    SiteError::Config(
                        String::from_str(
                            "invalidation requires an environment with a distribution",
                        ),
                    ),
                ),
            }
        }
    }

    /// The standalone upload of one asset: it requires a configured bucket
    /// for the current environment, keeps the given key, and guesses the
    /// content type from the path's extension.
    pub fn upload_job(&self, cfg: &SiteConfig, path: String, key: String) -> (r: Result<
        UploadJob,
        SiteError,
    >)
        ensures
            r is Ok <==> cfg.settings_spec(self.environment).s3_bucket is Some,
            r matches Err(e) ==> e is Config,
            r matches Ok(j) ==> j.bucket@ == cfg.settings_spec(self.environment).s3_bucket.unwrap()@
                && j.key@ == key@ && j.filepath@ == path@ && j.content_type@ == mime_of(path@),
    {
        match &cfg.settings(self.environment).s3_bucket {
            Some(b) => {
                let content_type = guess_content_type(path.as_str());
                Ok(UploadJob { bucket: b.clone(), key, filepath: path, content_type })
            },
            None => Err(
                SiteError::Config(
                    String::from_str("asset cannot be uploaded to a local environment"),
                ),
            ),
        }
    }
}

} // verus!
