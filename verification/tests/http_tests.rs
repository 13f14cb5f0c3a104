use webserver::{plain_response, response_with_length, route_request_bytes, route_request_line, Route};

#[test]
fn test_handle_connection() {
    let input_bytes = b"GET / HTTP/1.1\r\n";
    let mut contents = vec![0u8; 1024];
    contents[..input_bytes.len()].clone_from_slice(input_bytes);
    let route = route_request_bytes(&contents);
    assert_eq!(route, Route::Index);
    assert_eq!(route.page(), "hello.html");
    let page = "<h1>Hello!</h1>";
    let response = plain_response(route.status_line(), page);
    let expected_response = format!("HTTP/1.1 200 OK\r\n\r\n{}", page);
    assert!(response.starts_with(expected_response.as_bytes()));
}

#[test]
fn request_line_routes() {
    assert_eq!(route_request_line("GET / HTTP/1.1"), Route::Index);
    assert_eq!(route_request_line("GET /sleep HTTP/1.1"), Route::Sleep);
    assert_eq!(route_request_line("GET /other HTTP/1.1"), Route::NotFound);
    assert_eq!(route_request_line("GET / HTTP/1.1 "), Route::NotFound);
    assert_eq!(route_request_line(""), Route::NotFound);
}

#[test]
fn request_bytes_routes() {
    assert_eq!(route_request_bytes(b"GET / HTTP/1.1\r\nHost: x\r\n\r\n"), Route::Index);
    assert_eq!(route_request_bytes(b"GET /sleep HTTP/1.1\r\n"), Route::Sleep);
    assert_eq!(route_request_bytes(b"GET / HTTP/1.1"), Route::NotFound);
    assert_eq!(route_request_bytes(b"POST / HTTP/1.1\r\n"), Route::NotFound);
    assert_eq!(route_request_bytes(&[0u8; 1024]), Route::NotFound);
}

#[test]
fn route_answers() {
    assert_eq!(Route::Index.status_line(), "HTTP/1.1 200 OK");
    assert_eq!(Route::Sleep.status_line(), "HTTP/1.1 200 OK");
    assert_eq!(Route::NotFound.status_line(), "HTTP/1.1 404 NOT FOUND");
    assert_eq!(Route::Index.page(), "hello.html");
    assert_eq!(Route::Sleep.page(), "sleep.html");
    assert_eq!(Route::NotFound.page(), "404.html");
    assert!(!Route::Index.pauses());
    assert!(Route::Sleep.pauses());
    assert!(!Route::NotFound.pauses());
}

#[test]
fn response_announces_body_length() {
    let response = response_with_length("HTTP/1.1 200 OK", "hello");
    assert_eq!(response, b"HTTP/1.1 200 OK\r\nContent-Length: 5\r\n\r\nhello".to_vec());
    let response = response_with_length("HTTP/1.1 404 NOT FOUND", "");
    assert_eq!(response, b"HTTP/1.1 404 NOT FOUND\r\nContent-Length: 0\r\n\r\n".to_vec());
}

#[test]
fn response_length_counts_bytes() {
    let response = response_with_length("S", "é");
    assert_eq!(response, "S\r\nContent-Length: 2\r\n\r\né".as_bytes().to_vec());
    let body = "x".repeat(1234);
    let response = response_with_length("S", &body);
    let expected = format!("S\r\nContent-Length: 1234\r\n\r\n{}", body);
    assert_eq!(response, expected.as_bytes().to_vec());
}

#[test]
fn content_length_reads_back_as_body_length() {
    for n in [0usize, 9, 10, 99, 100, 4096] {
        let body = "a".repeat(n);
        let response = String::from_utf8(response_with_length("S", &body)).unwrap();
        let after_label = &response["S\r\nContent-Length: ".len()..];
        let end = after_label.find("\r\n\r\n").unwrap();
        assert_eq!(after_label[..end].parse::<usize>().unwrap(), n);
        assert_eq!(&after_label[end + 4..], body);
    }
}

#[test]
fn plain_response_frames_body() {
    assert_eq!(plain_response("HTTP/1.1 404 NOT FOUND", "gone"), b"HTTP/1.1 404 NOT FOUND\r\n\r\ngone".to_vec());
}
