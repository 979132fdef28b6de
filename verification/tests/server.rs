use snow::connection::{HttpRequest, ParseError};
use snow::pages::{StaticDirectoryPage, StaticPage};
use snow::{HttpServer, PatternError};

fn ok_reply(body: &[u8]) -> Vec<u8> {
    let mut reply = b"HTTP/1.1 200 OK\r\n\r\n".to_vec();
    reply.extend_from_slice(body);
    reply
}

#[test]
fn parse_round_trip() {
    let req = HttpRequest::parse_from("GET /res/a.txt HTTP/1.1\r\nHost: x\r\n\r\n").unwrap();
    assert_eq!(req.method(), "GET");
    assert_eq!(req.path(), "/res/a.txt");
    assert_eq!(req.value("Host").unwrap().as_str(), "x");
}

#[test]
fn parse_empty_input_fails() {
    assert!(matches!(HttpRequest::parse_from(""), Err(ParseError::EmptyRequest)));
}

#[test]
fn parse_blank_first_line_fails() {
    assert!(matches!(HttpRequest::parse_from("\r\n"), Err(ParseError::NoMethod)));
}

#[test]
fn parse_missing_path_fails() {
    assert!(matches!(HttpRequest::parse_from("GET\r\nHost: x\r\n"), Err(ParseError::NoPath)));
}

#[test]
fn parse_keeps_cr_on_unterminated_final_line() {
    let req = HttpRequest::parse_from("GET /x\r").unwrap();
    assert_eq!(req.method(), "GET");
    assert_eq!(req.path(), "/x\r");
}

#[test]
fn parse_trims_header_value() {
    let req = HttpRequest::parse_from("GET / HTTP/1.1\r\nKey:   spaced value \r\n\r\n").unwrap();
    assert_eq!(req.value("Key").unwrap().as_str(), "spaced value");
}

#[test]
fn parse_last_header_occurrence_wins() {
    let req =
        HttpRequest::parse_from("GET / HTTP/1.1\r\nHost: first\r\nHost: second\r\n\r\n").unwrap();
    assert_eq!(req.value("Host").unwrap().as_str(), "second");
}

#[test]
fn parse_ignores_line_without_colon() {
    let req = HttpRequest::parse_from("GET / HTTP/1.1\r\nnonsense line\r\nHost: x\r\n").unwrap();
    assert_eq!(req.value("Host").unwrap().as_str(), "x");
    assert!(req.value("nonsense line").is_none());
}

#[test]
fn router_first_registered_match_wins() {
    let mut server: HttpServer<StaticPage> = HttpServer::new();
    server.add_callback("^/res/", StaticPage::new(b"H1".to_vec())).unwrap();
    server.add_callback("^/", StaticPage::new(b"H2".to_vec())).unwrap();
    assert_eq!(server.find_callback("/res/a.txt"), Some(0));
    assert_eq!(server.find_callback("/index.html"), Some(1));
    assert_eq!(
        server.handle_text("GET /res/a.txt HTTP/1.1\r\nHost: x\r\n\r\n"),
        Some(ok_reply(b"H1"))
    );
    assert_eq!(server.handle_text("GET /index.html HTTP/1.1\r\n\r\n"), Some(ok_reply(b"H2")));
}

#[test]
fn router_without_match_serves_nothing() {
    let mut server: HttpServer<StaticPage> = HttpServer::new();
    server.add_callback("^/api", StaticPage::new(b"H1".to_vec())).unwrap();
    assert_eq!(server.find_callback("/other"), None);
    assert!(server.handle_text("GET /other HTTP/1.1\r\n\r\n").is_none());
}

#[test]
fn router_rejects_invalid_pattern() {
    let mut server: HttpServer<StaticPage> = HttpServer::new();
    assert_eq!(server.add_callback("(", StaticPage::new(b"H1".to_vec())), Err(PatternError));
    assert_eq!(server.find_callback("/anything"), None);
}

#[test]
fn parse_failure_serves_nothing() {
    let mut server: HttpServer<StaticPage> = HttpServer::new();
    server.add_callback("^/", StaticPage::new(b"H1".to_vec())).unwrap();
    assert!(server.handle_text("").is_none());
    assert!(server.handle_text("\r\n").is_none());
}

#[test]
fn static_page_serves_status_line_then_bytes() {
    let page = StaticPage::new(b"<html>hi</html>".to_vec());
    assert_eq!(page.response(), b"HTTP/1.1 200 OK\r\n\r\n<html>hi</html>".to_vec());
}

#[test]
fn served_connection_round_trip() {
    let mut server = HttpServer::new();
    server.add_callback("^/", StaticPage::new(b"<html>hi</html>".to_vec())).unwrap();
    let reply = server.handle_connection(b"GET / HTTP/1.1\r\n\r\n").unwrap();
    assert_eq!(reply, b"HTTP/1.1 200 OK\r\n\r\n<html>hi</html>".to_vec());
}

#[test]
fn invalid_utf8_is_replaced_not_fatal() {
    let mut server: HttpServer<StaticPage> = HttpServer::new();
    server.add_callback("^/a\u{fffd}$", StaticPage::new(b"replaced".to_vec())).unwrap();
    let mut bytes = b"GET /a".to_vec();
    bytes.push(0xff);
    bytes.extend_from_slice(b" HTTP/1.1\r\n\r\n");
    assert_eq!(server.handle_connection(&bytes), Some(ok_reply(b"replaced")));
}

#[test]
fn directory_page_serves_named_file() {
    let files = vec![("a.txt".to_string(), b"alpha".to_vec())];
    let page = StaticDirectoryPage::new("/res/", files);
    let req = HttpRequest::new("GET", "/res/a.txt");
    assert_eq!(page.response(&req), b"HTTP/1.1 200 OK\r\n\r\nalpha".to_vec());
}

#[test]
fn directory_page_unknown_file_serves_header_only() {
    let files = vec![("a.txt".to_string(), b"alpha".to_vec())];
    let page = StaticDirectoryPage::new("/res/", files);
    let req = HttpRequest::new("GET", "/res/missing");
    assert_eq!(page.response(&req), b"HTTP/1.1 200 OK\r\n\r\n".to_vec());
}

#[test]
fn directory_page_prefix_not_in_path_serves_header_only() {
    let files = vec![("a.txt".to_string(), b"alpha".to_vec())];
    let page = StaticDirectoryPage::new("/res/", files);
    let req = HttpRequest::new("GET", "/elsewhere");
    assert_eq!(page.response(&req), b"HTTP/1.1 200 OK\r\n\r\n".to_vec());
}
