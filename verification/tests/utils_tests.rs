use std::path::MAIN_SEPARATOR;
use webserver::{add, get_html_path, get_path, PathStyle};

#[test]
fn it_works() {
    let result = add(2, 2);
    assert_eq!(result, 4);
}

#[test]
fn test_get_path() {
    let style = PathStyle::from_separator(MAIN_SEPARATOR);
    let path = get_path("x/y/z", String::from("hello.html"), style);
    println!("xxx [test_get_html_path] path:{path}");
    if MAIN_SEPARATOR == '\\' {
        assert_ne!(path, "".to_string());
    } else {
        assert_ne!(path, "".to_string());
    }
}

#[test]
fn test_get_html_path() {
    let style = PathStyle::from_separator(MAIN_SEPARATOR);
    let path = get_html_path(None, String::from("hello.html"), style);
    println!("xxx [test_get_html_path] path:{path}");
    if MAIN_SEPARATOR == '\\' {
        assert_eq!(path, "src\\html\\hello.html")
    } else {
        assert_eq!(path, "src/html/hello.html")
    }
}

#[test]
fn html_path_in_each_style() {
    assert_eq!(get_html_path(None, String::from("hello.html"), PathStyle::Windows), "src\\html\\hello.html");
    assert_eq!(get_html_path(None, String::from("hello.html"), PathStyle::Unix), "src/html/hello.html");
}

#[test]
fn add_edge_values() {
    assert_eq!(add(0, 0), 0);
    assert_eq!(add(usize::MAX - 1, 1), usize::MAX);
}
