use zhtw_mcp::discover::{
    diff_names, git_diff_args, has_supported_extension, path_excluded, toplevel_dir, ArgAction,
    Discovery, EntryAction, EntryKind,
};

fn patterns(list: &[&str]) -> Vec<String> {
    list.iter().map(|p| p.to_string()).collect()
}

fn excluded(path: &str, pattern: &str) -> bool {
    path_excluded(path, &patterns(&[pattern]), false)
}

#[test]
fn the_extension_decides_whatever_its_case() {
    for path in ["a.md", "a.MARKDOWN", "x/y.yml", "z.Yaml", "t.txt", ".md", "a.b.md"] {
        assert!(has_supported_extension(path), "{path}");
    }
    for path in ["", "md", "a.rs", "a.md.bak", "a.", "a.md/x", "a.mdx"] {
        assert!(!has_supported_extension(path), "{path}");
    }
}

#[test]
fn an_extension_pattern_matches_the_end_of_a_path() {
    assert!(excluded("/w/a.tmp", "*.tmp"));
    assert!(!excluded("/w/a.tmpx", "*.tmp"));
    assert!(!excluded("/w/atmp", "*.tmp"));
    assert!(excluded("/w/a.", "*."));
}

#[test]
fn a_directory_pattern_matches_a_whole_component() {
    assert!(excluded("/path/to/vendor/file.md", "vendor/**"));
    assert!(!excluded("/path/to/some_vendor/file.md", "vendor/**"));
    assert!(excluded("/path/to/vendor", "vendor/**"));
    assert!(!excluded("/path/to/vendored", "vendor/**"));
    assert!(excluded("/a/b/c/d.md", "b/c/**"));
}

#[test]
fn a_directory_pattern_matches_in_a_relative_path() {
    assert!(excluded("vendor/file.md", "vendor/**"));
    assert!(excluded("vendor/a/b.md", "vendor/**"));
    assert!(!excluded("vendor", "vendor/**"));
    assert!(!excluded("vendored/file.md", "vendor/**"));
    assert!(!excluded("some_vendor/file.md", "vendor/**"));
    assert!(excluded("b/c/d.md", "b/c/**"));
    assert!(excluded("w/vendor/file.md", "vendor/**"));
    assert!(path_excluded("vendor\\a.md", &patterns(&["vendor/**"]), true));
}

#[test]
fn an_empty_directory_pattern_matches_empty_components_behind_a_slash() {
    assert!(excluded("/a//b.md", "/**"));
    assert!(excluded("/a/", "/**"));
    assert!(!excluded("/a/b.md", "/**"));
    assert!(!excluded("", "/**"));
}

#[test]
fn a_plain_pattern_matches_a_whole_path() {
    assert!(excluded("vendor", "vendor"));
    assert!(!excluded("vendored", "vendor"));
}

#[test]
fn a_plain_pattern_matches_a_whole_component() {
    assert!(excluded("/path/to/vendor/file.md", "vendor"));
    assert!(excluded("/path/to/vendor", "vendor"));
    assert!(excluded("vendor/file.md", "vendor"));
    assert!(!excluded("/path/to/some_vendor/file.md", "vendor"));
    assert!(!excluded("/path/to/vendor_file.md", "vendor"));
    assert!(excluded("/w/README.md", "README.md"));
}

#[test]
fn no_pattern_excludes_nothing() {
    assert!(!path_excluded("/w/a.md", &patterns(&[]), false));
    assert!(path_excluded("/w/a.md", &patterns(&["x", "*.md"]), false));
}

#[test]
fn backslashes_separate_on_windows_only() {
    let list = patterns(&["vendor/**"]);
    assert!(path_excluded("C:\\w\\vendor\\a.md", &list, true));
    assert!(!path_excluded("C:\\w\\vendor\\a.md", &list, false));
}

#[test]
fn a_ref_is_handed_to_git_or_refused() {
    assert_eq!(
        git_diff_args("main").unwrap(),
        vec!["diff", "-z", "--name-only", "main...HEAD"]
    );
    assert_eq!(
        git_diff_args("feature/foo+bar").unwrap()[3],
        "feature/foo+bar...HEAD"
    );
    assert_eq!(git_diff_args("HEAD~2^{}@_.").unwrap()[3], "HEAD~2^{}@_....HEAD");
    assert_eq!(git_diff_args("").unwrap()[3], "...HEAD");
    assert_eq!(
        git_diff_args("--output=x").unwrap_err(),
        "--diff-from ref must not start with '-'"
    );
    assert_eq!(
        git_diff_args("a b").unwrap_err(),
        "--diff-from ref contains invalid characters"
    );
    assert_eq!(
        git_diff_args("分支").unwrap_err(),
        "--diff-from ref contains invalid characters"
    );
    assert_eq!(git_diff_args("a-b").unwrap()[3], "a-b...HEAD");
}

#[test]
fn the_changed_files_are_the_supported_names_in_order() {
    assert_eq!(
        diff_names("b.md\0src/a.rs\0文件.txt\0\0a\nb.yml\0"),
        vec!["b.md", "文件.txt", "a\nb.yml"]
    );
    assert!(diff_names("").is_empty());
    assert_eq!(toplevel_dir("/work/tree\n"), "/work/tree");
}

#[test]
fn arguments_are_taken_for_what_they_name() {
    let mut d = Discovery::new(patterns(&["vendor/**"]), false);
    let file = |p: &str| Some((EntryKind::File, p.to_owned()));
    assert!(matches!(d.take_arg("b.rs", file("/w/b.rs")), ArgAction::Done));
    assert!(matches!(d.take_arg("a.md", file("/w/a.md")), ArgAction::Done));
    assert!(matches!(d.take_arg("./a.md", file("/w/a.md")), ArgAction::Done));
    assert!(matches!(d.take_arg("v", file("/w/vendor/x.md")), ArgAction::Done));
    assert!(matches!(d.take_arg("--", None), ArgAction::Done));
    assert!(matches!(
        d.take_arg("docs", Some((EntryKind::Dir, "/w/docs".to_owned()))),
        ArgAction::Walk
    ));
    assert!(matches!(
        d.take_arg("link", Some((EntryKind::Symlink, "/w/l".to_owned()))),
        ArgAction::Done
    ));
    assert!(matches!(
        d.take_arg("pipe", Some((EntryKind::Other, "/w/p".to_owned()))),
        ArgAction::Done
    ));
    match d.take_arg("gone.md", None) {
        ArgAction::Fail(m) => assert_eq!(m, "path does not exist: gone.md"),
        other => panic!("expected a failure, got {other:?}"),
    }
    assert_eq!(d.finish().unwrap(), vec!["--", "/w/a.md", "/w/b.rs"]);
}

#[test]
fn entries_are_taken_by_the_rules_of_the_walk() {
    let mut d = Discovery::new(patterns(&["vendor/**", "*.tmp.md"]), false);
    let mut take = |name: &str, kind: EntryKind| {
        let path = format!("./{name}");
        let canonical = format!("/w/{name}");
        d.take_entry(name, &path, kind, &canonical)
    };
    assert_eq!(take("z.md", EntryKind::File), EntryAction::Done);
    assert_eq!(take("a.txt", EntryKind::File), EntryAction::Done);
    assert_eq!(take("a.rs", EntryKind::File), EntryAction::Done);
    assert_eq!(take("b.tmp.md", EntryKind::File), EntryAction::Done);
    assert_eq!(take(".hidden.md", EntryKind::File), EntryAction::Done);
    assert_eq!(take("link.md", EntryKind::Symlink), EntryAction::Done);
    assert_eq!(take("sub", EntryKind::Dir), EntryAction::Walk);
    assert_eq!(take(".git", EntryKind::Dir), EntryAction::Done);
    assert_eq!(take("vendor", EntryKind::Dir), EntryAction::Done);
    assert_eq!(d.finish().unwrap(), vec!["/w/a.txt", "/w/z.md"]);
}

#[test]
fn finding_nothing_is_an_error() {
    let d = Discovery::new(patterns(&[]), false);
    assert_eq!(
        d.finish().unwrap_err(),
        "no supported files found in the given paths"
    );
}

#[test]
fn the_order_of_the_arguments_does_not_matter() {
    let names = ["/w/b.md", "/w/a.md", "/w/é.md", "/w/ab.md", "/w/a.md"];
    let collect = |order: &[&str]| {
        let mut d = Discovery::new(patterns(&[]), false);
        for n in order {
            d.take_arg(n, Some((EntryKind::File, n.to_string())));
        }
        d.finish().unwrap()
    };
    let mut reversed = names;
    reversed.reverse();
    let found = collect(&names);
    assert_eq!(found, collect(&reversed));
    let mut sorted: Vec<String> = names.iter().map(|n| n.to_string()).collect();
    sorted.sort();
    sorted.dedup();
    assert_eq!(found, sorted);
}
