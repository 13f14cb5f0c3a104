use webserver::{get_html_path, get_path, html_base_path, join_path_parts, PathStyle};

const UNIX: PathStyle = PathStyle::Unix;
const WINDOWS: PathStyle = PathStyle::Windows;

fn parts(list: &[&str]) -> Vec<String> {
    list.iter().map(|s| s.to_string()).collect()
}

#[test]
fn style_follows_the_main_separator() {
    assert_eq!(PathStyle::from_separator('\\'), WINDOWS);
    assert_eq!(PathStyle::from_separator('/'), UNIX);
}

#[test]
fn get_path_splits_at_both_separators() {
    assert_eq!(get_path("x/y/z", "xxx.txt".to_string(), UNIX), "x/y/z/xxx.txt");
    assert_eq!(get_path("a\\b", "t.txt".to_string(), UNIX), "a/b/t.txt");
    assert_eq!(get_path("a\\b/c", "t".to_string(), UNIX), "a/b/c/t");
    assert_eq!(get_path("x/y/z", "xxx.txt".to_string(), WINDOWS), "x\\y\\z\\xxx.txt");
    assert_eq!(get_path("a\\b/c", "t".to_string(), WINDOWS), "a\\b\\c\\t");
}

#[test]
fn get_path_collapses_repeated_and_trailing_separators() {
    assert_eq!(get_path("a//b", "t".to_string(), UNIX), "a/b/t");
    assert_eq!(get_path("a/", "t".to_string(), UNIX), "a/t");
    assert_eq!(get_path("a\\\\b\\", "t".to_string(), WINDOWS), "a\\b\\t");
}

#[test]
fn get_path_drops_the_leading_root() {
    assert_eq!(get_path("/abs/dir", "t".to_string(), UNIX), "abs/dir/t");
    assert_eq!(get_path("\\abs\\dir", "t".to_string(), WINDOWS), "abs\\dir\\t");
}

#[test]
fn get_path_with_empty_base_is_the_target() {
    assert_eq!(get_path("", "t.html".to_string(), UNIX), "t.html");
    assert_eq!(get_path("", "t.html".to_string(), WINDOWS), "t.html");
}

#[test]
fn rooted_target_replaces_the_base() {
    assert_eq!(get_path("a/b", "/etc/passwd".to_string(), UNIX), "/etc/passwd");
    assert_eq!(get_path("a/b", "\\etc".to_string(), WINDOWS), "\\etc");
    assert_eq!(get_path("a/b", "/etc".to_string(), WINDOWS), "/etc");
    assert_eq!(get_path("a/b", "\\etc".to_string(), UNIX), "a/b/\\etc");
}

#[test]
fn empty_target_ends_with_separator() {
    assert_eq!(get_path("a/b", String::new(), UNIX), "a/b/");
    assert_eq!(get_path("a/b", String::new(), WINDOWS), "a\\b\\");
}

#[test]
fn join_path_parts_follows_push() {
    assert_eq!(join_path_parts(&parts(&["src", "html"]), "hello.html", UNIX), "src/html/hello.html");
    assert_eq!(join_path_parts(&parts(&[]), "hello.html", UNIX), "hello.html");
    assert_eq!(join_path_parts(&parts(&["", "a"]), "b", UNIX), "a/b");
    assert_eq!(join_path_parts(&parts(&["a", ""]), "b", UNIX), "a/b");
    assert_eq!(join_path_parts(&parts(&["a"]), "/b", UNIX), "/b");
    assert_eq!(join_path_parts(&parts(&["a", ""]), "b", WINDOWS), "a\\b");
    assert_eq!(join_path_parts(&parts(&["C:", "a"]), "b", WINDOWS), "C:a\\b");
    assert_eq!(join_path_parts(&parts(&["a"]), "b", WINDOWS), "a\\b");
}

#[test]
fn html_base_defaults_when_unset_or_empty() {
    assert_eq!(html_base_path(None), "src/html");
    assert_eq!(html_base_path(Some("")), "src/html");
    assert_eq!(html_base_path(Some("abc/bcd")), "abc/bcd");
}

#[test]
fn html_path_uses_the_configured_directory() {
    assert_eq!(get_html_path(Some("abc/bcd"), "hello.html".to_string(), UNIX), "abc/bcd/hello.html");
    assert_eq!(get_html_path(Some(""), "404.html".to_string(), UNIX), "src/html/404.html");
    assert_eq!(get_html_path(Some("abc\\bcd"), "sleep.html".to_string(), UNIX), "abc/bcd/sleep.html");
    assert_eq!(get_html_path(Some("abc/bcd"), "hello.html".to_string(), WINDOWS), "abc\\bcd\\hello.html");
}

#[test]
fn windows_drive_components() {
    assert_eq!(get_path("C:\\dir", "hello.html".to_string(), WINDOWS), "C:dir\\hello.html");
    assert_eq!(get_path("C:", "hello.html".to_string(), WINDOWS), "C:hello.html");
    assert_eq!(get_path("a\\C:\\b", "t".to_string(), WINDOWS), "C:b\\t");
    assert_eq!(get_path("C:dir", "t".to_string(), WINDOWS), "C:dir\\t");
    assert_eq!(get_path("C:\\dir", "hello.html".to_string(), UNIX), "C:/dir/hello.html");
    assert_eq!(get_path("1:\\dir", "t".to_string(), WINDOWS), "1:\\dir\\t");
}

#[test]
fn windows_rooted_target_keeps_the_drive() {
    assert_eq!(get_path("C:\\dir", "\\x".to_string(), WINDOWS), "C:\\x");
    assert_eq!(get_path("C:\\dir", "/x".to_string(), WINDOWS), "C:/x");
    assert_eq!(get_path("dir", "\\x".to_string(), WINDOWS), "\\x");
}

#[test]
fn windows_prefixed_target_replaces() {
    assert_eq!(get_path("C:\\dir", "D:x".to_string(), WINDOWS), "D:x");
    assert_eq!(get_path("C:\\dir", "\\\\server\\share\\f".to_string(), WINDOWS), "\\\\server\\share\\f");
    assert_eq!(get_path("C:\\dir", "//server/share".to_string(), WINDOWS), "//server/share");
    assert_eq!(get_path("C:\\dir", "\\\\?\\pipe".to_string(), WINDOWS), "\\\\?\\pipe");
    assert_eq!(get_path("C:\\dir", "\\\\.\\COM1".to_string(), WINDOWS), "\\\\.\\COM1");
}

#[test]
fn windows_incomplete_unc_is_rooted_only() {
    assert_eq!(get_path("C:\\dir", "\\\\server".to_string(), WINDOWS), "C:\\\\server");
    assert_eq!(get_path("C:\\dir", "\\\\server\\".to_string(), WINDOWS), "C:\\\\server\\");
    assert_eq!(get_path("C:\\dir", "\\\\".to_string(), WINDOWS), "C:\\\\");
}
