use mdmake::OutputAction;
use mdmake::chars_to_string;
use mdmake::is_markdown_file;
use mdmake::join_under;
use mdmake::path_is_under;
use mdmake::plan_file;
use mdmake::plan_site;
use mdmake::str_to_chars;
use mdmake::strip_dir_prefix;
use mdmake::with_html_extension;

#[test]
fn strip_prefix_of_walked_path() {
    assert_eq!(
        strip_dir_prefix("src/a/b.md", "src"),
        Some("a/b.md".to_string())
    );
    assert_eq!(strip_dir_prefix("src/a/b.md", "src/"), Some("a/b.md".to_string()));
    assert_eq!(strip_dir_prefix("other/x", "src"), None);
    assert_eq!(strip_dir_prefix("src", "src"), None);
}

#[test]
fn path_under_checks_the_boundary() {
    assert!(path_is_under("src/x", "src"));
    assert!(!path_is_under("srcdir/x", "src"));
    assert!(!path_is_under("sr/x", "src"));
}

#[test]
fn markdown_classification_is_case_insensitive() {
    assert!(is_markdown_file("a/b.md"));
    assert!(is_markdown_file("a/b.MD"));
    assert!(is_markdown_file("a/b.Md"));
    assert!(!is_markdown_file("a/b.mdx"));
    assert!(!is_markdown_file("pic.png"));
    assert!(!is_markdown_file("a/.md"));
    assert!(!is_markdown_file(".md"));
}

#[test]
fn html_extension_replaces_or_appends() {
    assert_eq!(with_html_extension("a/b.md"), "a/b.html");
    assert_eq!(with_html_extension("noext"), "noext.html");
    assert_eq!(with_html_extension(".hidden"), ".hidden.html");
    assert_eq!(with_html_extension("a.tar.gz"), "a.tar.html");
}

#[test]
fn join_inserts_single_separator() {
    assert_eq!(join_under("out", "a/b.html"), "out/a/b.html");
    assert_eq!(join_under("out/", "x"), "out/x");
}

#[test]
fn chars_round_trip() {
    let v = str_to_chars("round trip ✓");
    assert_eq!(chars_to_string(&v), "round trip ✓");
}

#[test]
fn plan_compiles_markdown_and_copies_the_rest() {
    let inputs = vec![
        "src/index.md".to_string(),
        "src/img/logo.png".to_string(),
        "src/sub/page.MD".to_string(),
    ];
    let plan = plan_site(&inputs, "src");
    assert_eq!(plan.len(), 3);
    match &plan[0] {
        OutputAction::CompilePage { input, output_rel } => {
            assert_eq!(input, "src/index.md");
            assert_eq!(output_rel, "index.html");
        }
        _ => panic!("markdown file must be compiled"),
    }
    match &plan[1] {
        OutputAction::CopyResource { input, output_rel } => {
            assert_eq!(input, "src/img/logo.png");
            assert_eq!(output_rel, "img/logo.png");
        }
        _ => panic!("resource file must be copied"),
    }
    match &plan[2] {
        OutputAction::CompilePage { input, output_rel } => {
            assert_eq!(input, "src/sub/page.MD");
            assert_eq!(output_rel, "sub/page.html");
        }
        _ => panic!("markdown file must be compiled"),
    }
}

#[test]
fn plan_file_mirrors_resource_location_unchanged() {
    let a = plan_file(&"src/data/raw.bin".to_string(), "src");
    match a {
        OutputAction::CopyResource { input, output_rel } => {
            assert_eq!(input, "src/data/raw.bin");
            assert_eq!(output_rel, "data/raw.bin");
        }
        _ => panic!("resource file must be copied"),
    }
}

#[test]
fn plan_never_targets_a_stray_path() {
    let inputs = vec!["src/a.md".to_string(), "src/b.png".to_string()];
    let plan = plan_site(&inputs, "src");
    for action in &plan {
        let target = match action {
            OutputAction::CompilePage { output_rel, .. } => output_rel,
            OutputAction::CopyResource { output_rel, .. } => output_rel,
        };
        assert_ne!(target, "stale.html");
    }
}
