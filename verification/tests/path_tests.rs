use xtask::pop_parent_replace_ext;
use xtask::Environment;

#[test]
fn path_sanity() {
    let new_path = pop_parent_replace_ext("parent/child/file.ext", Some("xyz"));
    assert_eq!(String::from("child/file.xyz"), new_path);
}

#[test]
fn mapping_without_parent_keeps_the_path() {
    assert_eq!(pop_parent_replace_ext("file.ext", Some("xyz")), "file.xyz");
    assert_eq!(pop_parent_replace_ext("file.ext", None), "file.ext");
}

#[test]
fn mapping_strips_exactly_the_first_segment() {
    assert_eq!(pop_parent_replace_ext("content/a/b/c.md", None), "a/b/c.md");
    assert_eq!(pop_parent_replace_ext("content/post.md", Some("html")), "post.html");
}

#[test]
fn mapping_adds_an_extension_where_none_is() {
    assert_eq!(pop_parent_replace_ext("content/notes/README", Some("html")), "notes/README.html");
}

#[test]
fn mapping_output_is_always_relative() {
    // an empty segment is consumed with the first separator run
    assert_eq!(pop_parent_replace_ext("a//b", None), "b");
    assert_eq!(pop_parent_replace_ext("content///a/b.md", Some("html")), "a/b.html");
    // a leading root goes with the first segment
    assert_eq!(pop_parent_replace_ext("/abs/path.txt", None), "abs/path.txt");
    assert_eq!(pop_parent_replace_ext("a//", None), "");
}

#[test]
fn hidden_files_have_no_extension_to_replace() {
    assert_eq!(pop_parent_replace_ext("content/.gitignore", Some("html")), ".gitignore.html");
    assert_eq!(pop_parent_replace_ext("content/.hidden", None), ".hidden");
}

#[test]
fn environment_names_round_trip() {
    assert_eq!(Environment::from_name("local").unwrap(), Environment::Local);
    assert_eq!(Environment::from_name("staging").unwrap(), Environment::Staging);
    assert_eq!(Environment::from_name("production").unwrap(), Environment::Production);
    assert_eq!(Environment::Staging.name(), "staging");
    let err = Environment::from_name("qa").unwrap_err();
    assert!(matches!(err, xtask::SiteError::Config(_)));
    assert_eq!(err.message(), "unsupported environment");
}

#[test]
fn manifest_file_name_is_environment_dot_yaml() {
    assert_eq!(xtask::environment::manifest_file_name(Environment::Local), "local.yaml");
    assert_eq!(xtask::environment::manifest_file_name(Environment::Production), "production.yaml");
}
