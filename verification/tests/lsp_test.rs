use rneovim_core::lsp::{frame_message, parse_content_length, uri_to_path};

#[test]
fn frames_carry_the_byte_length() {
    assert_eq!(frame_message("{}"), "Content-Length: 2\r\n\r\n{}");
    assert_eq!(frame_message(""), "Content-Length: 0\r\n\r\n");
    assert_eq!(frame_message("é"), "Content-Length: 2\r\n\r\né");
    let body = "x".repeat(1234);
    assert_eq!(frame_message(&body), format!("Content-Length: 1234\r\n\r\n{}", body));
}

#[test]
fn header_lines_are_read_like_the_server_writes_them() {
    assert_eq!(parse_content_length("Content-Length: 42\r\n"), Some(42));
    assert_eq!(parse_content_length("Content-Length:  +7 "), Some(7));
    assert_eq!(parse_content_length("Content-Length: 0"), Some(0));
    assert_eq!(parse_content_length("Content-Length: x"), None);
    assert_eq!(parse_content_length("Content-Length: "), None);
    assert_eq!(parse_content_length("Content-Length: +"), None);
    assert_eq!(parse_content_length("Content-Length: 1 2"), None);
    assert_eq!(parse_content_length("content-length: 3"), None);
    assert_eq!(parse_content_length("Content-Length: 99999999999999999999999999"), None);
    assert_eq!(parse_content_length("Content-Length: 18446744073709551615"), Some(usize::MAX));
}

#[test]
fn file_uris_become_paths() {
    assert_eq!(uri_to_path("file:///tmp/a.rs"), "/tmp/a.rs");
    assert_eq!(uri_to_path("http://x"), "http://x");
    assert_eq!(uri_to_path("file:/"), "file:/");
}
