use xtask::{
    ContentFile, Environment, EnvSettings, ExternalPage, FileContent, PageSource, RenderError,
    Renderer, ResolvedExternal, SiteConfig, SiteError, SiteManifest, Timestamp,
};

fn ts(epoch_seconds: i64) -> Timestamp {
    Timestamp { epoch_seconds, offset_seconds: 0 }
}

fn local_only_config() -> SiteConfig {
    SiteConfig {
        local: EnvSettings {
            root_url: String::from("http://localhost:8000"),
            s3_bucket: None,
            cloudfront_distro: None,
        },
        staging: EnvSettings {
            root_url: String::from("https://staging.example.com"),
            s3_bucket: Some(String::from("staging-bucket")),
            cloudfront_distro: Some(String::from("STAGINGDISTRO")),
        },
        production: EnvSettings {
            root_url: String::from("https://example.com"),
            s3_bucket: Some(String::from("production-bucket")),
            cloudfront_distro: Some(String::from("PRODDISTRO")),
        },
    }
}

struct TagRenderer;

impl Renderer for TagRenderer {
    fn render_content(
        _cfg: &SiteConfig,
        _environment: Environment,
        content: String,
        extra_classes: &str,
    ) -> Result<String, RenderError> {
        Ok(format!("[{extra_classes}]{content}"))
    }
}

struct FailingRenderer;

impl Renderer for FailingRenderer {
    fn render_content(
        _cfg: &SiteConfig,
        _environment: Environment,
        _content: String,
        _extra_classes: &str,
    ) -> Result<String, RenderError> {
        Err(RenderError { message: String::from("render exploded") })
    }
}

fn sample_externals() -> Vec<ResolvedExternal> {
    vec![ResolvedExternal {
        page: ExternalPage {
            source_url: PageSource::Remote(String::from("https://example.com/devlog")),
            local_path: String::from("devlog/index.html"),
        },
        content: String::from("devlog body"),
        origin_modified: ts(1000),
    }]
}

fn sample_contents() -> Vec<ContentFile> {
    vec![
        ContentFile {
            path: String::from("content/post.md"),
            content: b"# hello".to_vec(),
            origin_modified: ts(2000),
        },
        ContentFile {
            path: String::from("content/img.png"),
            content: vec![137, 80, 78, 71],
            origin_modified: ts(3000),
        },
    ]
}

#[test]
fn build_records_one_entry_per_input() {
    let cfg = local_only_config();
    let mut manifest = SiteManifest::new(Environment::Local, String::from("site"));
    let writes = manifest
        .build::<TagRenderer>(&cfg, &sample_externals(), &sample_contents())
        .unwrap();

    assert_eq!(manifest.files.len(), 3);

    let external = &manifest.files[0];
    assert_eq!(external.origin, "https://example.com/devlog");
    assert_eq!(external.destination, "devlog/index.html");
    assert_eq!(external.built_filepath, "site/devlog/index.html");
    assert_eq!(external.origin_modified, ts(1000));

    let markdown = &manifest.files[1];
    assert_eq!(markdown.origin, "content/post.md");
    assert_eq!(markdown.destination, "post.html");
    assert_eq!(markdown.built_filepath, "site/post.html");

    let copied = &manifest.files[2];
    assert_eq!(copied.origin, "content/img.png");
    assert_eq!(copied.destination, "img.png");
    assert_eq!(copied.built_filepath, "site/img.png");

    assert_eq!(writes.len(), 3);
    assert_eq!(writes[0].path, "site/devlog/index.html");
    match &writes[0].content {
        FileContent::Rendered(s) => assert_eq!(s, "[devlog]devlog body"),
        FileContent::Copied(_) => panic!("the external page must be rendered"),
    }
    match &writes[1].content {
        FileContent::Rendered(s) => assert_eq!(s, "[]# hello"),
        FileContent::Copied(_) => panic!("markdown must be rendered"),
    }
    match &writes[2].content {
        FileContent::Rendered(_) => panic!("other files must be copied verbatim"),
        FileContent::Copied(b) => assert_eq!(b, &vec![137, 80, 78, 71]),
    }
}

#[test]
fn markdown_and_copies_partition_the_content_tree() {
    let cfg = local_only_config();
    let mut manifest = SiteManifest::new(Environment::Local, String::from("site"));
    let writes = manifest.build::<TagRenderer>(&cfg, &Vec::new(), &sample_contents()).unwrap();
    let rendered = writes
        .iter()
        .filter(|w| matches!(w.content, FileContent::Rendered(_)))
        .count();
    let copied = writes
        .iter()
        .filter(|w| matches!(w.content, FileContent::Copied(_)))
        .count();
    assert_eq!(rendered + copied, sample_contents().len());
    assert_eq!(rendered, 1);
    assert_eq!(copied, 1);
}

#[test]
fn clean_twice_leaves_the_map_empty_both_times() {
    let cfg = local_only_config();
    let mut manifest = SiteManifest::new(Environment::Local, String::from("site"));
    manifest.build::<TagRenderer>(&cfg, &sample_externals(), &sample_contents()).unwrap();
    assert_eq!(manifest.files.len(), 3);
    manifest.clean();
    assert_eq!(manifest.files.len(), 0);
    assert_eq!(manifest.build_directory, "site");
    manifest.clean();
    assert_eq!(manifest.files.len(), 0);
    assert_eq!(manifest.build_directory, "site");
    assert_eq!(manifest.environment, Environment::Local);
}

#[test]
fn a_render_failure_aborts_the_build() {
    let cfg = local_only_config();
    let mut manifest = SiteManifest::new(Environment::Local, String::from("site"));
    let err = manifest
        .build::<FailingRenderer>(&cfg, &sample_externals(), &sample_contents())
        .unwrap_err();
    match err {
        SiteError::Render(message) => assert_eq!(message, "render exploded"),
        _ => panic!("a rendering failure must surface as a render error"),
    }
}

#[test]
fn markdown_that_is_not_text_aborts_the_build() {
    let cfg = local_only_config();
    let mut manifest = SiteManifest::new(Environment::Local, String::from("site"));
    let bad = vec![ContentFile {
        path: String::from("content/bad.md"),
        content: vec![0xff, 0xfe, 0x00, 0xff],
        origin_modified: ts(1),
    }];
    let err = manifest.build::<TagRenderer>(&cfg, &Vec::new(), &bad).unwrap_err();
    assert!(matches!(err, SiteError::Filesystem(_)));
}

#[test]
fn a_build_with_nothing_to_render_cannot_fail() {
    // no external pages and no markdown files: the renderer is never
    // consulted, so even one that always fails cannot abort the build
    let cfg = local_only_config();
    let mut manifest = SiteManifest::new(Environment::Local, String::from("site"));
    let copies = vec![ContentFile {
        path: String::from("content/img.png"),
        content: vec![1, 2, 3],
        origin_modified: ts(5),
    }];
    let writes = manifest.build::<FailingRenderer>(&cfg, &Vec::new(), &copies).unwrap();
    assert_eq!(writes.len(), 1);
    assert_eq!(manifest.files.len(), 1);
    assert_eq!(manifest.files[0].origin, "content/img.png");
}

#[test]
fn an_aborted_build_records_nothing_for_the_failing_source() {
    let cfg = local_only_config();
    let mut manifest = SiteManifest::new(Environment::Local, String::from("site"));
    let err = manifest.build::<FailingRenderer>(&cfg, &sample_externals(), &sample_contents());
    assert!(err.is_err());
    // the very first render fails: the reset map gained no entry at all
    assert_eq!(manifest.files.len(), 0);
}

#[test]
fn recording_the_same_origin_twice_overwrites_the_record() {
    let mut manifest = SiteManifest::new(Environment::Local, String::from("site"));
    manifest.record(
        String::from("content/a.md"),
        ts(1),
        String::from("site/a.html"),
        String::from("a.html"),
    );
    manifest.record(
        String::from("content/b.md"),
        ts(2),
        String::from("site/b.html"),
        String::from("b.html"),
    );
    manifest.record(
        String::from("content/a.md"),
        ts(9),
        String::from("site/a2.html"),
        String::from("a2.html"),
    );
    assert_eq!(manifest.files.len(), 2);
    assert_eq!(manifest.files[0].origin, "content/a.md");
    assert_eq!(manifest.files[0].origin_modified, ts(9));
    assert_eq!(manifest.files[0].destination, "a2.html");
    assert_eq!(manifest.files[1].origin, "content/b.md");
    assert!(manifest.is_wf());
}
