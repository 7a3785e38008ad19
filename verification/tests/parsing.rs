use mini_httpd::request::{parse_http_request, HttpRequest, Method, ParseError};

fn parsed(text: &str) -> HttpRequest {
    match parse_http_request(text) {
        Ok(request) => request,
        Err(error) => panic!("{:?}", error),
    }
}

fn refused(text: &str) -> ParseError {
    match parse_http_request(text) {
        Ok(_) => panic!("parsed"),
        Err(error) => error,
    }
}

fn header(request: &HttpRequest, name: &str) -> Option<String> {
    request.header(name).map(|value| value.to_string())
}

#[test]
fn parsed_request_keeps_method_path_and_headers() {
    let request = parsed("GET /readme.txt HTTP/1.0\r\nHost: x\r\n\r\n");
    assert_eq!(request.method(), Method::Get);
    assert_eq!(request.path(), "/readme.txt");
    assert_eq!(header(&request, "Host"), Some("x".to_string()));
    assert_eq!(header(&request, "host"), None);
    assert_eq!(header(&request, "Accept"), None);
}

#[test]
fn every_known_method_is_recognised() {
    assert_eq!(parsed("GET / HTTP/1.0\n\n").method(), Method::Get);
    assert_eq!(parsed("HEAD / HTTP/1.0\n\n").method(), Method::Head);
    assert_eq!(parsed("PUT / HTTP/1.0\n\n").method(), Method::Put);
    assert_eq!(parsed("POST / HTTP/1.0\n\n").method(), Method::Post);
}

#[test]
fn unknown_method_is_unsupported() {
    assert_eq!(refused("DELETE / HTTP/1.0\r\n\r\n"), ParseError::UnsupportedMethod);
    assert_eq!(refused("GETS / HTTP/1.0\r\n\r\n"), ParseError::UnsupportedMethod);
    assert_eq!(refused("GE / HTTP/1.0\r\n\r\n"), ParseError::UnsupportedMethod);
    assert_eq!(refused(" GET / HTTP/1.0\r\n\r\n"), ParseError::UnsupportedMethod);
    assert_eq!(refused("get / HTTP/1.0\r\n\r\n"), ParseError::UnsupportedMethod);
}

#[test]
fn too_few_lines_or_parts_are_invalid() {
    assert_eq!(refused(""), ParseError::InvalidRequest);
    assert_eq!(refused("GET / HTTP/1.0"), ParseError::InvalidRequest);
    assert_eq!(refused("GET / HTTP/1.0\r\n"), ParseError::InvalidRequest);
    assert_eq!(refused("GET /\r\n\r\n"), ParseError::InvalidRequest);
    assert_eq!(refused("GET\r\n\r\n"), ParseError::InvalidRequest);
    assert_eq!(refused("BAD\r\n\r\n"), ParseError::InvalidRequest);
    assert_eq!(refused("\n\n"), ParseError::InvalidRequest);
    assert_eq!(refused("BREW /pot\r\n\r\n"), ParseError::InvalidRequest);
}

#[test]
fn three_lines_and_three_parts_are_enough() {
    assert_eq!(parsed("GET / HTTP/1.0\n\n").path(), "/");
    assert_eq!(parsed("GET / x\n\n").path(), "/");
    assert_eq!(parsed("GET / HTTP/1.0 extra\n\n").path(), "/");
    assert_eq!(parsed("GET a b\nc\nd").path(), "a");
}

#[test]
fn parts_are_cut_at_single_spaces() {
    assert_eq!(parsed("GET  / HTTP/1.0\n\n").path(), "");
    assert_eq!(parsed("GET /a\tb HTTP/1.0\n\n").path(), "/a\tb");
    assert_eq!(refused("GET\t/\tHTTP/1.0\n\n"), ParseError::InvalidRequest);
}

#[test]
fn path_is_stored_verbatim() {
    assert_eq!(parsed("GET /a%20b/../c?d=e#f HTTP/1.0\n\n").path(), "/a%20b/../c?d=e#f");
    assert_eq!(parsed("GET relative HTTP/1.0\n\n").path(), "relative");
    assert_eq!(parsed("GET /caf\u{e9}/\u{1f600} HTTP/1.0\n\n").path(), "/caf\u{e9}/\u{1f600}");
}

#[test]
fn header_values_are_trimmed_and_names_are_not() {
    let request = parsed("GET / HTTP/1.0\r\nHost:   example  \r\n Padded : v\r\n\r\n");
    assert_eq!(header(&request, "Host"), Some("example".to_string()));
    assert_eq!(header(&request, " Padded "), Some("v".to_string()));
    assert_eq!(header(&request, "Padded"), None);
}

#[test]
fn header_value_may_be_empty() {
    let request = parsed("GET / HTTP/1.0\r\nEmpty:\r\nBlank:  \t \r\n:nameless\r\n\r\n");
    assert_eq!(header(&request, "Empty"), Some("".to_string()));
    assert_eq!(header(&request, "Blank"), Some("".to_string()));
    assert_eq!(header(&request, ""), Some("nameless".to_string()));
}

#[test]
fn lines_without_exactly_one_colon_are_skipped() {
    let request = parsed("GET / HTTP/1.0\r\nno colon here\r\nHost: a:80\r\nAccept: */*\r\n\r\n");
    assert_eq!(header(&request, "no colon here"), None);
    assert_eq!(header(&request, "Host"), None);
    assert_eq!(header(&request, "Accept"), Some("*/*".to_string()));
}

#[test]
fn later_header_replaces_earlier_one() {
    let request = parsed("GET / HTTP/1.0\r\nHost: a\r\nHost: b\r\n\r\n");
    assert_eq!(header(&request, "Host"), Some("b".to_string()));
}

#[test]
fn headers_end_at_the_first_empty_line() {
    let request = parsed("GET / HTTP/1.0\nBefore: 1\n\nAfter: 2\n");
    assert_eq!(header(&request, "Before"), Some("1".to_string()));
    assert_eq!(header(&request, "After"), None);
}

#[test]
fn line_of_a_lone_carriage_return_is_not_empty() {
    let request = parsed("GET / HTTP/1.0\r\nBefore: 1\r\n\r\nAfter: 2\r\n");
    assert_eq!(header(&request, "Before"), Some("1".to_string()));
    assert_eq!(header(&request, "After"), Some("2".to_string()));
}

#[test]
fn header_text_beyond_ascii_is_kept() {
    let request = parsed("GET / HTTP/1.0\nX-\u{e9}t\u{e9}:\u{a0}\u{2003}gr\u{fc}\u{df}e \u{3000}\n\n");
    assert_eq!(header(&request, "X-\u{e9}t\u{e9}"), Some("gr\u{fc}\u{df}e".to_string()));
}
