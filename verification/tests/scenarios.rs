use mini_httpd::files::{DirectoryEntry, FileError};
use mini_httpd::http::{head_response, process_http_request, serve_file, serve_listing, Step};
use mini_httpd::http_status::{not_found, ok};
use mini_httpd::request::{parse_http_request, ParseError};
use mini_httpd::response::{ContentType, HttpResponse};

fn entry(path: &str, is_dir: bool) -> DirectoryEntry {
    DirectoryEntry { path: Some(path.to_string()), is_dir: Some(is_dir) }
}

#[test]
fn get_existing_file_is_served() {
    let step = process_http_request("GET /readme.txt HTTP/1.0\r\nHost: x\r\n\r\n");
    match step {
        Step::ReadFile { path, head } => {
            assert_eq!(path, "./readme.txt");
            assert!(!head);
            let response = serve_file(Ok(b"hello".to_vec()), head);
            assert_eq!(response.status.0, 200);
            assert_eq!(response.status.1, "OK");
            assert_eq!(response.content_type.as_str(), "text/plain");
            assert_eq!(response.body, b"hello".to_vec());
        }
        other => panic!("unexpected step {:?}", other),
    }
}

#[test]
fn get_missing_file_is_not_found() {
    let step = process_http_request("GET /missing.txt HTTP/1.0\r\n\r\n");
    match step {
        Step::ReadFile { path, head } => {
            assert_eq!(path, "./missing.txt");
            assert!(!head);
            let response = serve_file(Err(FileError::NotFound), head);
            assert_eq!(response.status.0, 404);
            assert_eq!(response.status.1, "Not Found");
            assert_eq!(response.content_type.as_str(), "text/plain");
            assert_eq!(response.body, b"Could not find file at requested path.\n".to_vec());
        }
        other => panic!("unexpected step {:?}", other),
    }
}

#[test]
fn get_root_lists_the_directory() {
    let step = process_http_request("GET / HTTP/1.0\r\n\r\n");
    match step {
        Step::ListDirectory { path, directory, head } => {
            assert_eq!(path, "./");
            assert_eq!(directory, "/");
            assert!(!head);
            let entries = vec![entry("./a.txt", false), entry("./sub", true)];
            let response = serve_listing(directory, Some(entries), head);
            assert_eq!(response.status.0, 200);
            assert_eq!(response.content_type.as_str(), "text/html;charset=utf-8");
            let page = String::from_utf8(response.body).unwrap();
            assert!(page.contains("<li><a href='a.txt'>a.txt</a></li>"));
            assert!(page.contains("<li><a href='sub/'>sub/</a></li>"));
            assert!(page.contains("<title>Directory listing for /</title>"));
        }
        other => panic!("unexpected step {:?}", other),
    }
}

#[test]
fn put_is_not_implemented() {
    let step = process_http_request("PUT /x HTTP/1.0\r\n\r\n");
    match step {
        Step::Respond(response) => {
            assert_eq!(response.status.0, 501);
            assert_eq!(response.status.1, "Not Implemented");
            assert_eq!(response.content_type.as_str(), "text/plain");
            assert_eq!(response.body, b"Unsupported method...\n".to_vec());
        }
        other => panic!("unexpected step {:?}", other),
    }
}

#[test]
fn post_is_not_implemented() {
    match process_http_request("POST /x HTTP/1.0\r\n\r\n") {
        Step::Respond(response) => assert_eq!(response.status.0, 501),
        other => panic!("unexpected step {:?}", other),
    }
}

#[test]
fn unknown_method_is_not_implemented() {
    match process_http_request("BREW /pot HTTP/1.0\r\n\r\n") {
        Step::Respond(response) => {
            assert_eq!(response.status.0, 501);
            assert_eq!(response.body, b"Unsupported method...\n".to_vec());
        }
        other => panic!("unexpected step {:?}", other),
    }
}

#[test]
fn method_names_are_case_sensitive() {
    match process_http_request("get / HTTP/1.0\r\n\r\n") {
        Step::Respond(response) => assert_eq!(response.status.0, 501),
        other => panic!("unexpected step {:?}", other),
    }
}

#[test]
fn single_line_is_an_invalid_request() {
    match parse_http_request("BAD\r\n\r\n") {
        Err(error) => assert_eq!(error, ParseError::InvalidRequest),
        Ok(_) => panic!("parsed"),
    }
    let step = process_http_request("BAD\r\n\r\n");
    match step {
        Step::Respond(response) => {
            assert_eq!(response.status.0, 400);
            assert_eq!(response.status.1, "Bad Request");
            assert_eq!(response.content_type.as_str(), "text/plain");
            assert_eq!(response.body, b"Received invalid request\n".to_vec());
        }
        other => panic!("unexpected step {:?}", other),
    }
}

#[test]
fn empty_text_is_an_invalid_request() {
    match process_http_request("") {
        Step::Respond(response) => assert_eq!(response.status.0, 400),
        other => panic!("unexpected step {:?}", other),
    }
}

#[test]
fn two_lines_are_an_invalid_request() {
    match process_http_request("GET / HTTP/1.0\r\n") {
        Step::Respond(response) => assert_eq!(response.status.0, 400),
        other => panic!("unexpected step {:?}", other),
    }
}

#[test]
fn invalid_request_comes_before_unknown_method() {
    match process_http_request("BREW /pot\r\n\r\n") {
        Step::Respond(response) => assert_eq!(response.status.0, 400),
        other => panic!("unexpected step {:?}", other),
    }
}

#[test]
fn head_of_a_file_asks_for_the_same_file() {
    match process_http_request("HEAD /readme.txt HTTP/1.0\r\n\r\n") {
        Step::ReadFile { path, head } => {
            assert_eq!(path, "./readme.txt");
            assert!(head);
        }
        other => panic!("unexpected step {:?}", other),
    }
}

#[test]
fn head_of_a_directory_asks_for_the_same_listing() {
    match process_http_request("HEAD /sub/ HTTP/1.0\r\n\r\n") {
        Step::ListDirectory { path, directory, head } => {
            assert_eq!(path, "./sub/");
            assert_eq!(directory, "/sub/");
            assert!(head);
        }
        other => panic!("unexpected step {:?}", other),
    }
}

#[test]
fn head_of_an_existing_file_has_no_body() {
    let get = serve_file(Ok(b"hello".to_vec()), false);
    let head = serve_file(Ok(b"hello".to_vec()), true);
    assert_eq!(head.status.0, get.status.0);
    assert_eq!(head.status.1, get.status.1);
    assert_eq!(head.content_type.as_str(), get.content_type.as_str());
    assert_eq!(get.body, b"hello".to_vec());
    assert!(head.body.is_empty());
}

#[test]
fn head_of_a_missing_file_keeps_the_error_body() {
    let get = serve_file(Err(FileError::NotFound), false);
    let head = serve_file(Err(FileError::NotFound), true);
    assert_eq!(head.status.0, 404);
    assert_eq!(head.status.0, get.status.0);
    assert_eq!(head.content_type.as_str(), get.content_type.as_str());
    assert_eq!(head.body, get.body);
    assert_eq!(head.body, b"Could not find file at requested path.\n".to_vec());
}

#[test]
fn head_of_a_listing_has_no_body() {
    let get = serve_listing("/".to_string(), Some(vec![entry("./a.txt", false)]), false);
    let head = serve_listing("/".to_string(), Some(vec![entry("./a.txt", false)]), true);
    assert_eq!(head.status.0, 200);
    assert_eq!(head.content_type.as_str(), get.content_type.as_str());
    assert!(!get.body.is_empty());
    assert!(head.body.is_empty());
}

#[test]
fn head_of_an_unreadable_directory_keeps_the_error_body() {
    let head = serve_listing("/gone/".to_string(), None, true);
    assert_eq!(head.status.0, 500);
    assert_eq!(head.body, b"Could not list files in directory\n".to_vec());
}

#[test]
fn head_response_strips_only_a_success() {
    let stripped = head_response(HttpResponse::success(ContentType::html(), b"<p>".to_vec()));
    assert_eq!(stripped.status.0, 200);
    assert_eq!(stripped.content_type.as_str(), "text/html;charset=utf-8");
    assert!(stripped.body.is_empty());
    let kept = head_response(HttpResponse::error(not_found(), "gone"));
    assert_eq!(kept.status.0, 404);
    assert_eq!(kept.body, b"gone\n".to_vec());
    let odd = head_response(HttpResponse {
        status: ok(),
        content_type: ContentType::octet_stream(),
        body: vec![0, 159, 146, 150],
    });
    assert!(odd.body.is_empty());
    assert_eq!(odd.content_type.as_str(), "application/octet-stream");
}

#[test]
fn file_that_cannot_be_read_is_an_internal_error() {
    let response = serve_file(Err(FileError::ReadFailed), false);
    assert_eq!(response.status.0, 500);
    assert_eq!(response.status.1, "Internal Server Error");
    assert_eq!(response.content_type.as_str(), "text/plain");
    assert_eq!(response.body, b"Failed to read file...\n".to_vec());
}

#[test]
fn directory_that_cannot_be_read_is_an_internal_error() {
    let response = serve_listing("/gone/".to_string(), None, false);
    assert_eq!(response.status.0, 500);
    assert_eq!(response.status.1, "Internal Server Error");
    assert_eq!(response.content_type.as_str(), "text/plain");
    assert_eq!(response.body, b"Could not list files in directory\n".to_vec());
}

#[test]
fn binary_file_is_served_byte_for_byte() {
    let contents: Vec<u8> = (0..=255).collect();
    let response = serve_file(Ok(contents.clone()), false);
    assert_eq!(response.status.0, 200);
    assert_eq!(response.body, contents);
}

#[test]
fn same_request_gets_the_same_body_twice() {
    let text = "GET /readme.txt HTTP/1.0\r\nHost: x\r\n\r\n";
    let mut bodies: Vec<Vec<u8>> = Vec::new();
    for _ in 0..2 {
        match process_http_request(text) {
            Step::ReadFile { path, head } => {
                assert_eq!(path, "./readme.txt");
                bodies.push(serve_file(Ok(b"hello".to_vec()), head).body);
            }
            other => panic!("unexpected step {:?}", other),
        }
    }
    assert_eq!(bodies[0], bodies[1]);
    let listing = "GET / HTTP/1.0\r\n\r\n";
    let mut pages: Vec<Vec<u8>> = Vec::new();
    for _ in 0..2 {
        match process_http_request(listing) {
            Step::ListDirectory { directory, head, .. } => {
                let entries = vec![entry("./a.txt", false), entry("./sub", true)];
                pages.push(serve_listing(directory, Some(entries), head).body);
            }
            other => panic!("unexpected step {:?}", other),
        }
    }
    assert_eq!(pages[0], pages[1]);
}

#[test]
fn path_is_taken_as_it_stands() {
    match process_http_request("GET /../secret%20file HTTP/1.0\r\n\r\n") {
        Step::ReadFile { path, .. } => assert_eq!(path, "./../secret%20file"),
        other => panic!("unexpected step {:?}", other),
    }
    match process_http_request("GET caf\u{e9}/ HTTP/1.0\r\n\r\n") {
        Step::ListDirectory { path, directory, .. } => {
            assert_eq!(path, ".caf\u{e9}/");
            assert_eq!(directory, "caf\u{e9}/");
        }
        other => panic!("unexpected step {:?}", other),
    }
}
