use wutag::error::Error;
use wutag::opt::Shell;
use wutag::util::{fmt_err, fmt_ok, fmt_path};
use wutag::walk::{base_dir, glob_walker, walk_depth, DEFAULT_MAX_DEPTH};

#[test]
fn depth_follows_recursion_flag() {
    assert_eq!(walk_depth(false), 1);
    assert_eq!(walk_depth(true), DEFAULT_MAX_DEPTH);
    assert!(walk_depth(true) >= 3);
    assert!(walk_depth(false) < 3);
}

#[test]
fn walker_is_built_for_a_valid_pattern() {
    assert!(glob_walker(".", "**/*", false).is_ok());
    assert!(matches!(glob_walker(".", "a[", true), Err(Error::Walk(_))));
}

#[test]
fn base_dir_defaults_to_current() {
    assert_eq!(base_dir(None), ".");
    assert_eq!(base_dir(Some("/tmp".to_string())), "/tmp");
}

#[test]
fn shells_parse_in_any_case() {
    assert_eq!(Shell::parse("BASH"), Ok(Shell::Bash));
    assert_eq!(Shell::parse("PowerShell"), Ok(Shell::PowerShell));
    assert_eq!("zsh".parse::<Shell>(), Ok(Shell::Zsh));
    assert_eq!(Shell::parse("Fish"), Ok(Shell::Fish));
    assert_eq!(Shell::parse("elvish"), Ok(Shell::Elvish));
    assert_eq!(Shell::parse("Cmd"), Err(Error::InvalidShell("Cmd".to_string())));
}

#[test]
fn messages_carry_their_text() {
    let e = fmt_err("boom");
    assert!(e.contains("ERROR") && e.contains("boom") && e.contains(":\t"));
    let o = fmt_ok("done");
    assert!(o.contains("OK") && o.contains("done"));
    let p = fmt_path("/a/b");
    assert!(p.starts_with('`') && p.ends_with('`') && p.contains("/a/b"));
    let e_at = e.find("ERROR").unwrap();
    let sep_at = e.find(":\t").unwrap();
    let msg_at = e.rfind("boom").unwrap();
    assert!(e_at < sep_at && sep_at < msg_at);
}

#[test]
fn walker_fails_only_for_a_bad_pattern() {
    assert!(glob_walker("/nonexistent-base", "*.png", true).is_ok());
    assert!(glob_walker(".", "**/*", true).is_ok());
    assert!(glob_walker(".", "[", false).is_err());
}
