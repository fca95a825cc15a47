use ignore_pattern::{path_to_regex, regex_source, Matcher};

fn compiled(pattern: &str) -> Matcher {
    path_to_regex(pattern).expect("the translation of a pattern always compiles")
}

#[test]
fn test_path_to_regex() {
    let pattern = "*.txt";
    let regex = compiled(pattern);
    assert!(regex.is_match("file.txt"));
    assert!(regex.is_match("file.txt/"));
    assert!(regex.is_match("dir/file.txt"));

    let pattern = "/dir/*.txt";
    let regex = compiled(pattern);
    assert!(regex.is_match("/dir/file.txt"));
    assert!(regex.is_match("dir/file.txt"));
    assert!(!regex.is_match("/dir/subdir/file.txt"));

    let pattern = "apps/";
    let regex = compiled(pattern);
    assert!(regex.is_match("apps/file.txt"));
    assert!(regex.is_match("/apps/file.txt"));
    assert!(regex.is_match("/dir/apps/file.txt"));
    assert!(regex.is_match("/dir/subdir/apps/file.txt"));

    let pattern = "docs/*";
    let regex = compiled(pattern);
    assert!(regex.is_match("docs/getting-started.md"));
    // should not match on nested files
    assert!(!regex.is_match("docs/build-app/troubleshooting.md"));

    let pattern = "/docs/";
    let regex = compiled(pattern);
    assert!(regex.is_match("/docs/file.txt"));
    assert!(regex.is_match("/docs/subdir/file.txt"));
    assert!(!regex.is_match("app/docs/file.txt"));
}

#[test]
fn pattern_without_slash_matches_any_segment() {
    let m = compiled("build");
    assert!(m.is_match("build"));
    assert!(m.is_match("build/out.o"));
    assert!(m.is_match("src/build"));
    assert!(m.is_match("a/b/build/c"));
    assert!(!m.is_match("rebuild"));
    assert!(!m.is_match("builds"));
    assert!(!m.is_match("a/xbuild/c"));
}

#[test]
fn star_suffix_does_not_match_longer_name() {
    let m = compiled("*.txt");
    assert!(!m.is_match("file.txtx"));
    assert!(!m.is_match("file.txt.bak"));
}

#[test]
fn rooted_pattern_with_star_stays_in_one_directory() {
    let m = compiled("/dir/*.txt");
    assert!(!m.is_match("other/dir/file.txt"));
    assert!(!m.is_match("/dir/sub/file.txt"));
}

#[test]
fn directory_only_needs_a_following_slash() {
    let m = compiled("apps/");
    assert!(!m.is_match("apps"));
    assert!(!m.is_match("dir/apps"));
    assert!(!m.is_match("myapps/file.txt"));
}

#[test]
fn shallow_star_matches_direct_children_only() {
    let m = compiled("docs/*");
    assert!(m.is_match("docs/readme"));
    assert!(!m.is_match("docs/a/b"));
    assert!(!m.is_match("docs/readme/"));
}

#[test]
fn rooted_directory_is_anchored() {
    let m = compiled("/docs/");
    assert!(m.is_match("docs/file.txt"));
    assert!(!m.is_match("/docs"));
}

#[test]
fn compiling_twice_gives_the_same_answers() {
    let patterns = ["*.txt", "/dir/*.txt", "apps/", "docs/*", "/docs/", "a/**/b", "\\", ""];
    let paths = [
        "file.txt",
        "dir/file.txt",
        "/dir/file.txt",
        "apps/x",
        "docs/a",
        "docs/a/b",
        "a/x/y/b",
        "\\",
        "",
    ];
    for pattern in patterns {
        let first = compiled(pattern);
        let second = compiled(pattern);
        assert_eq!(first.as_str(), second.as_str());
        for path in paths {
            assert_eq!(first.is_match(path), second.is_match(path));
        }
    }
}

#[test]
fn single_backslash_matches_literal_backslash_entry() {
    let m = compiled("\\");
    assert!(m.is_match("\\"));
    assert!(m.is_match("\\/inner"));
    assert!(m.is_match("dir/\\"));
    assert!(!m.is_match("\\x"));
    assert!(!m.is_match("x"));
    assert!(!m.is_match(""));
    assert_eq!(regex_source("\\"), "\\\\(?:\\z|/)");
}

#[test]
fn backslash_followed_by_more_is_an_ordinary_pattern() {
    assert_eq!(regex_source("\\a"), "(?:\\A|/)\\\\a(?:\\z|/)");
    let m = compiled("\\a");
    assert!(m.is_match("\\a"));
    assert!(!m.is_match("\\"));
}

#[test]
fn double_star_segments_cross_directories() {
    let m = compiled("**/foo");
    assert!(m.is_match("a/foo"));
    assert!(m.is_match("a/b/c/foo"));
    assert!(m.is_match("a/b/c/foo/bar"));

    let m = compiled("foo/**");
    assert!(m.is_match("foo/a"));
    assert!(m.is_match("foo/a/b/c"));

    let m = compiled("a/**/b");
    assert!(m.is_match("a/x/b"));
    assert!(m.is_match("a/x/y/z/b"));
    assert!(!m.is_match("c/x/b"));
}

#[test]
fn double_star_inside_a_segment_is_two_single_stars() {
    assert_eq!(regex_source("a**b"), "(?:\\A|/)a[^/]*[^/]*b(?:\\z|/)");
    let m = compiled("a**b");
    assert!(m.is_match("ab"));
    assert!(m.is_match("axyzb"));
    assert!(!m.is_match("ax/yb"));
}

#[test]
fn question_mark_is_one_character_within_a_segment() {
    let m = compiled("a?c");
    assert!(m.is_match("abc"));
    assert!(!m.is_match("ac"));
    assert!(!m.is_match("abbc"));
    assert!(!m.is_match("a/c"));
}

#[test]
fn meta_characters_are_matched_literally() {
    assert_eq!(regex_source("a.b+c"), "(?:\\A|/)a\\.b\\+c(?:\\z|/)");
    let m = compiled("a.b");
    assert!(m.is_match("a.b"));
    assert!(!m.is_match("axb"));
    let m = compiled("(x)|[y]");
    assert!(m.is_match("(x)|[y]"));
    assert!(!m.is_match("x"));
}

#[test]
fn non_ascii_characters_are_kept() {
    let m = compiled("é*ß");
    assert!(m.is_match("dir/éxyzß"));
    assert!(!m.is_match("éx/ß"));
}

#[test]
fn empty_pattern_matches_nothing() {
    assert_eq!(regex_source(""), "[^\\s\\S]");
    let m = compiled("");
    assert!(!m.is_match(""));
    assert!(!m.is_match("a"));
    assert!(!m.is_match("a/b"));
    assert!(!m.is_match("/"));
}

#[test]
fn expression_texts() {
    assert_eq!(regex_source("*.txt"), "(?:\\A|/)[^/]*\\.txt(?:\\z|/)");
    assert_eq!(regex_source("/dir/*.txt"), "\\A/?dir/[^/]*\\.txt(?:\\z|/)");
    assert_eq!(regex_source("apps/"), "(?:\\A|/)apps/");
    assert_eq!(regex_source("docs/*"), "\\Adocs/[^/]*\\z");
    assert_eq!(regex_source("/docs/"), "\\A/?docs/");
    assert_eq!(regex_source("**/foo"), "\\A(?s:.)*/foo(?:\\z|/)");
    assert_eq!(regex_source("a/**/b"), "\\Aa/(?s:.)*/b(?:\\z|/)");
    assert_eq!(regex_source("foo/**"), "\\Afoo/(?s:.)*(?:\\z|/)");
    assert_eq!(regex_source("**"), "(?:\\A|/)(?s:.)*(?:\\z|/)");
    assert_eq!(regex_source("/"), "(?:\\A|/)/");
    assert_eq!(regex_source("*"), "(?:\\A|/)[^/]*(?:\\z|/)");
}

#[test]
fn matcher_text_is_the_translation() {
    let m = compiled("/dir/*.txt");
    assert_eq!(m.as_str(), regex_source("/dir/*.txt"));
}

#[test]
fn whole_segment_double_star_takes_a_line_feed() {
    let m = compiled("a/**/b");
    assert!(m.is_match("a/x/y/b"));
    assert!(m.is_match("a/x\ny/b"));
    let m = compiled("**");
    assert!(m.is_match("a\nb"));
}

#[test]
fn single_character_wildcard_takes_a_line_feed() {
    let m = compiled("a?b");
    assert!(m.is_match("a\nb"));
    let m = compiled("a*b");
    assert!(m.is_match("a\n\nb"));
}

#[test]
fn directory_only_pattern_at_any_depth() {
    let m = compiled("build/");
    assert!(m.is_match("x/y/build/z"));
    assert!(!m.is_match("x/y/build"));
    assert!(!m.is_match("x/rebuild/z"));
}
