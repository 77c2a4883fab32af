use devspin_cli::http::{is_success_response, parse_http_url};

fn parts(url: &str) -> Option<(String, u16, String)> {
    parse_http_url(url).map(|t| (t.host, t.port, t.path))
}

fn some(host: &str, port: u16, path: &str) -> Option<(String, u16, String)> {
    Some((host.to_string(), port, path.to_string()))
}

#[test]
fn a_url_points_at_a_host_a_port_and_a_path() {
    assert_eq!(parts("http://localhost:3000/health"), some("localhost", 3000, "/health"));
    assert_eq!(parts("http://127.0.0.1:8080/"), some("127.0.0.1", 8080, "/"));
    assert_eq!(parts("http://example.com/a/b?c=d"), some("example.com", 80, "/a/b?c=d"));
}

#[test]
fn without_a_port_the_port_is_80() {
    assert_eq!(parts("http://localhost/health"), some("localhost", 80, "/health"));
}

#[test]
fn without_a_path_the_path_is_the_root() {
    assert_eq!(parts("http://localhost:3000"), some("localhost", 3000, "/"));
    assert_eq!(parts("http://localhost"), some("localhost", 80, "/"));
}

#[test]
fn a_colon_in_the_path_is_part_of_the_path() {
    assert_eq!(parts("http://localhost/a:b"), some("localhost", 80, "/a:b"));
    assert_eq!(parts("http://localhost:81/a:b/c"), some("localhost", 81, "/a:b/c"));
}

#[test]
fn the_largest_and_the_smallest_port_are_read() {
    assert_eq!(parts("http://h:65535/"), some("h", 65535, "/"));
    assert_eq!(parts("http://h:0/"), some("h", 0, "/"));
    assert_eq!(parts("http://h:00080/"), some("h", 80, "/"));
}

#[test]
fn a_host_may_hold_any_other_character() {
    assert_eq!(parts("http://münchen.example:8/ü"), some("münchen.example", 8, "/ü"));
}

#[test]
fn what_is_no_http_url_points_nowhere() {
    for url in [
        "",
        "http:/",
        "http://",
        "http:///path",
        "http://:80/",
        "https://localhost/",
        "HTTP://localhost/",
        "localhost:3000",
        "ftp://localhost/",
        "http://h:/",
        "http://h:65536/",
        "http://h:123456/",
        "http://h:8o/",
        "http://h:-1/",
        "http://h:80:80/",
        " http://h/",
    ] {
        assert!(parse_http_url(url).is_none(), "{:?}", url);
    }
}

#[test]
fn the_request_is_a_get_that_names_the_host() {
    let target = parse_http_url("http://localhost:3000/health").unwrap();
    assert_eq!(
        target.request(),
        "GET /health HTTP/1.1\r\nHost: localhost\r\nConnection: close\r\n\r\n"
    );
}

#[test]
fn a_status_of_the_two_hundreds_is_a_success() {
    assert!(is_success_response(b"HTTP/1.1 200 OK\r\n\r\n"));
    assert!(is_success_response(b"HTTP/1.0 204 No Content\r\n"));
    assert!(is_success_response(b"HTTP/1.1 299"));
}

#[test]
fn any_other_answer_is_no_success() {
    for head in [
        &b"HTTP/1.1 404 Not Found\r\n"[..],
        b"HTTP/1.1 500 Internal Server Error\r\n",
        b"HTTP/1.1 301 Moved\r\n",
        b"HTTP/1.1 100 Continue\r\n",
        b"HTTP/1.1 20",
        b"HTTP/1.1  200 OK",
        b"HTTP/1.1 2xx",
        b"HTTP/11 200 OK\r\n",
        b"http/1.1 200 OK\r\n",
        b"XTTP/1.1 200 OK\r\n",
        b"",
        b"200 OK",
    ] {
        assert!(!is_success_response(head), "{:?}", head);
    }
}
