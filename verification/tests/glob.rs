use ygrep_core::util::glob_match;

#[test]
fn test_glob_match() {
    // **/dir/** patterns
    assert!(glob_match("**/node_modules/**", "foo/node_modules/bar/baz.js"));
    assert!(glob_match("**/.git/**", ".git/config"));

    // **/*.ext patterns
    assert!(glob_match("**/*.log", "foo/bar/debug.log"));
    assert!(!glob_match("**/*.log", "foo/bar/debug.txt"));

    // *.ext patterns
    assert!(glob_match("*.log", "debug.log"));
    assert!(!glob_match("*.log", "debug.txt"));

    // **/something patterns
    assert!(glob_match("**/config", "foo/bar/config"));
    assert!(glob_match("**/config", "config"));

    // something/** patterns
    assert!(glob_match("build/**", "build/output/file.o"));
}

#[test]
fn directory_pattern_needs_a_whole_component() {
    assert!(glob_match("**/target/**", "a/target"));
    assert!(glob_match("**/target/**", "target/debug"));
    assert!(glob_match("**/target/**", "/x/target/y"));
    assert!(!glob_match("**/target/**", "a/mytarget/b"));
    assert!(!glob_match("**/target/**", "a/target2/b"));
    assert!(!glob_match("**/target/**", "target"));
}

#[test]
fn extension_patterns_agree_on_paths() {
    for path in ["a.log", "x/a.log", ".log", "log", "a.log.txt", "alog", ""] {
        assert_eq!(glob_match("*.log", path), glob_match("**/*.log", path), "{}", path);
    }
}

#[test]
fn start_pattern_matches_at_the_start_of_the_path() {
    assert!(glob_match("build/**", "build/y"));
    assert!(glob_match("build/**", "build"));
    assert!(glob_match("build/**", "builder"));
    assert!(!glob_match("build/**", "src/builder.rs"));
    assert!(!glob_match("build/**", "x/build/y"));
    assert!(!glob_match("build/**", "rebuild/y"));
}

#[test]
fn plain_pattern_is_a_path_or_a_component() {
    assert!(glob_match("Cargo.lock", "Cargo.lock"));
    assert!(glob_match("Cargo.lock", "a/Cargo.lock"));
    assert!(glob_match("vendor", "a/vendor/b"));
    assert!(glob_match("vendor", "vendor/b"));
    assert!(glob_match("target", "target/debug/app"));
    assert!(!glob_match("vendor", "vendors/b"));
    assert!(!glob_match("vendor", "a/myvendor"));
    assert!(glob_match("", ""));
    assert!(glob_match("", "a/"));
}

#[test]
fn short_patterns_with_stars() {
    assert!(glob_match("**/**", "a/**"));
    assert!(!glob_match("**/**", "a/b"));
    assert!(glob_match("**//**", "a//b"));
    assert!(glob_match("/**", "anything"));
}
