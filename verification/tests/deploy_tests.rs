use xtask::deploy::{caller_reference, default_upload_key};
use xtask::{
    DeployAction, Environment, EnvSettings, SiteConfig, SiteError, SiteManifest, Timestamp,
};

fn ts(epoch_seconds: i64) -> Timestamp {
    Timestamp { epoch_seconds, offset_seconds: 0 }
}

fn config() -> SiteConfig {
    SiteConfig {
        local: EnvSettings {
            root_url: String::from("http://localhost:8000"),
            s3_bucket: None,
            cloudfront_distro: None,
        },
        staging: EnvSettings {
            root_url: String::from("https://staging.example.com"),
            s3_bucket: Some(String::from("staging-bucket")),
            cloudfront_distro: Some(String::from("STAGINGDISTRO")),
        },
        production: EnvSettings {
            root_url: String::from("https://example.com"),
            s3_bucket: Some(String::from("production-bucket")),
            cloudfront_distro: Some(String::from("PRODDISTRO")),
        },
    }
}

fn staging_manifest() -> SiteManifest {
    let mut manifest = SiteManifest::new(Environment::Staging, String::from("site"));
    manifest.record(
        String::from("https://example.com/devlog"),
        ts(1),
        String::from("site/devlog/index.html"),
        String::from("devlog/index.html"),
    );
    manifest.record(
        String::from("content/post.md"),
        ts(2),
        String::from("site/post.html"),
        String::from("post.html"),
    );
    manifest
}

#[test]
fn a_failed_upload_suppresses_the_invalidation() {
    let cfg = config();
    let manifest = staging_manifest();
    let mut state = manifest.deploy_begin(&cfg).unwrap();
    let mut invalidations: usize = 0;
    let mut first = true;
    loop {
        match manifest.deploy_next(&cfg, "abc123", &state).unwrap() {
            DeployAction::Upload(job) => {
                assert_eq!(job.bucket, "staging-bucket");
                // the first upload fails; nothing may be invalidated after it
                state.mark_upload(!first);
                first = false;
            }
            DeployAction::Invalidate(_) => {
                invalidations += 1;
                state.mark_invalidated();
            }
            DeployAction::Done => break,
        }
    }
    assert_eq!(invalidations, 0);
}

#[test]
fn a_clean_deploy_invalidates_exactly_once_after_all_uploads() {
    let cfg = config();
    let manifest = staging_manifest();
    let mut state = manifest.deploy_begin(&cfg).unwrap();
    let mut uploads: Vec<String> = Vec::new();
    let mut invalidations: usize = 0;
    loop {
        match manifest.deploy_next(&cfg, "abc123", &state).unwrap() {
            DeployAction::Upload(job) => {
                uploads.push(job.key.clone());
                assert_eq!(job.bucket, "staging-bucket");
                state.mark_upload(true);
            }
            DeployAction::Invalidate(req) => {
                assert_eq!(uploads.len(), 2, "every upload precedes the invalidation");
                assert_eq!(req.distribution_id, "STAGINGDISTRO");
                assert_eq!(req.caller_reference, "xtask-abc123");
                assert_eq!(req.paths, vec![
                    String::from("/devlog/index.html"),
                    String::from("/post.html"),
                ]);
                invalidations += 1;
                state.mark_invalidated();
            }
            DeployAction::Done => break,
        }
    }
    assert_eq!(uploads, vec![String::from("devlog/index.html"), String::from("post.html")]);
    assert_eq!(invalidations, 1);
}

#[test]
fn upload_jobs_carry_the_guessed_content_type() {
    let cfg = config();
    let manifest = staging_manifest();
    let state = manifest.deploy_begin(&cfg).unwrap();
    match manifest.deploy_next(&cfg, "abc123", &state).unwrap() {
        DeployAction::Upload(job) => {
            assert_eq!(job.key, "devlog/index.html");
            assert_eq!(job.filepath, "site/devlog/index.html");
            assert_eq!(job.content_type, "text/html");
        }
        _ => panic!("the first action of a deploy is an upload"),
    }
}

#[test]
fn deploying_to_an_environment_without_a_bucket_is_rejected() {
    let cfg = config();
    let manifest = SiteManifest::new(Environment::Local, String::from("site"));
    let err = manifest.deploy_begin(&cfg).unwrap_err();
    assert!(matches!(err, SiteError::Config(_)));
}

#[test]
fn uploading_from_a_local_environment_is_rejected() {
    let cfg = config();
    let manifest = SiteManifest::new(Environment::Local, String::from("site"));
    let err = manifest
        .upload_job(&cfg, String::from("logo.png"), String::from("uploads/logo.png"))
        .unwrap_err();
    match err {
        SiteError::Config(message) => {
            assert_eq!(message, "asset cannot be uploaded to a local environment")
        }
        _ => panic!("a missing bucket is a configuration error"),
    }
}

#[test]
fn standalone_uploads_guess_the_content_type_from_the_path() {
    let cfg = config();
    let manifest = SiteManifest::new(Environment::Production, String::from("site"));
    let job = manifest
        .upload_job(&cfg, String::from("shot.png"), String::from("uploads/shot.png"))
        .unwrap();
    assert_eq!(job.bucket, "production-bucket");
    assert_eq!(job.key, "uploads/shot.png");
    assert_eq!(job.filepath, "shot.png");
    assert_eq!(job.content_type, "image/png");
    let unknown = manifest
        .upload_job(&cfg, String::from("blob.zzz"), String::from("uploads/blob.zzz"))
        .unwrap();
    assert_eq!(unknown.content_type, "application/octet-stream");
}

#[test]
fn default_upload_keys_sanitize_the_file_name() {
    assert_eq!(default_upload_key("My File.png"), "uploads/My_File.png");
    assert_eq!(default_upload_key("a\tb c.png"), "uploads/ab_c.png");
    assert_eq!(default_upload_key("plain.png"), "uploads/plain.png");
}

#[test]
fn caller_references_carry_the_revision() {
    assert_eq!(caller_reference("deadbeef"), "xtask-deadbeef");
}
