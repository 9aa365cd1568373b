use zhtw_mcp::hooks::{hook_failure, hook_notices};

#[test]
fn notices_are_the_lines_for_a_person() {
    assert_eq!(
        hook_notices("installed pre-commit\n  KEEP commit-msg\r\nNOTE hooks elsewhere\nnot KEEP\n"),
        vec!["KEEP commit-msg", "NOTE hooks elsewhere"]
    );
    assert!(hook_notices("").is_empty());
}

#[test]
fn a_failure_is_told_on_one_line() {
    assert_eq!(
        hook_failure("  one\ntwo\n"),
        "could not install the git hooks (one; two); run make hooks"
    );
    assert_eq!(
        hook_failure(" \n"),
        "could not install the git hooks (scripts/install-git-hooks.sh failed); run make hooks"
    );
}
