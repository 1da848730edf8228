use anyflipdl::url_parser::{parse, parse_from_parts, validate_and_parse};
use anyflipdl::validator::UrlParts;

#[test]
fn parse_standard_url() {
    let result = parse("https://anyflip.com/johndoe/mybook").unwrap();
    assert_eq!(result.user, "johndoe");
    assert_eq!(result.book, "mybook");
}

#[test]
fn parse_online_url() {
    let result = parse("https://online.anyflip.com/johndoe/mybook").unwrap();
    assert_eq!(result.user, "johndoe");
    assert_eq!(result.book, "mybook");
    assert_eq!(result.base_url, "https://online.anyflip.com/johndoe/mybook");
}

#[test]
fn normalizes_to_online() {
    let result = parse("https://anyflip.com/u/b").unwrap();
    assert_eq!(result.base_url, "https://online.anyflip.com/u/b");
}

#[test]
fn strips_trailing_slash() {
    let result = parse("https://anyflip.com/u/b/").unwrap();
    assert_eq!(result.user, "u");
    assert_eq!(result.book, "b");
}

#[test]
fn http_upgraded_and_parsed() {
    let result = parse("http://anyflip.com/user/book").unwrap();
    assert_eq!(result.user, "user");
    assert_eq!(result.book, "book");
    assert!(result.base_url.starts_with("https://"));
}

#[test]
fn hyphens_in_segments() {
    let result = parse("https://anyflip.com/my-user/my-book").unwrap();
    assert_eq!(result.user, "my-user");
    assert_eq!(result.book, "my-book");
}

#[test]
fn underscores_in_segments() {
    let result = parse("https://anyflip.com/my_user/my_book").unwrap();
    assert_eq!(result.user, "my_user");
    assert_eq!(result.book, "my_book");
}

#[test]
fn numeric_segments() {
    let result = parse("https://anyflip.com/user123/book456").unwrap();
    assert_eq!(result.user, "user123");
    assert_eq!(result.book, "book456");
}

#[test]
fn config_js_url() {
    let result = parse("https://anyflip.com/johndoe/mybook").unwrap();
    assert_eq!(
        result.config_js_url(),
        "https://online.anyflip.com/johndoe/mybook/mobile/javascript/config.js"
    );
}

#[test]
fn page_url() {
    let result = parse("https://anyflip.com/johndoe/mybook").unwrap();
    assert_eq!(
        result.page_url(5),
        "https://online.anyflip.com/johndoe/mybook/files/mobile/5.webp"
    );
}

#[test]
fn page_url_first_page() {
    let result = parse("https://anyflip.com/u/b").unwrap();
    assert_eq!(result.page_url(1), "https://online.anyflip.com/u/b/files/mobile/1.webp");
}

#[test]
fn large_page_url() {
    let result = parse("https://anyflip.com/johndoe/mybook").unwrap();
    assert_eq!(
        result.large_page_url("page005.webp"),
        "https://online.anyflip.com/johndoe/mybook/files/large/page005.webp"
    );
}

#[test]
fn temp_dir_name() {
    let result = parse("https://anyflip.com/a/b").unwrap();
    assert_eq!(result.temp_dir_name(), "a_b");
}

#[test]
fn rejects_empty_url() {
    assert!(parse("").is_err());
}

#[test]
fn rejects_invalid_host() {
    assert!(parse("https://evil.com/u/b").is_err());
}

#[test]
fn rejects_path_traversal() {
    assert!(parse("https://anyflip.com/../b").is_err());
}

#[test]
fn rejects_special_chars_in_user() {
    let err = parse("https://anyflip.com/u@ser/book").unwrap_err();
    assert!(err.to_string().contains("Invalid path segment"));
}

#[test]
fn rejects_special_chars_in_book() {
    let err = parse("https://anyflip.com/user/b%40ok").unwrap_err();
    assert!(err.to_string().contains("Invalid path segment"));
}

#[test]
fn rejects_missing_book() {
    assert!(parse("https://anyflip.com/user").is_err());
}

#[test]
fn accepts_extra_segments() {
    let result = parse("https://anyflip.com/a/b/c").unwrap();
    assert_eq!(result.user, "a");
    assert_eq!(result.book, "b");
}

#[test]
fn rejects_bare_domain() {
    assert!(parse("https://anyflip.com/").is_err());
}

#[test]
fn validate_and_parse_delegates_correctly() {
    let result = validate_and_parse("https://anyflip.com/user/book").unwrap();
    assert_eq!(result.user, "user");
    assert_eq!(result.book, "book");
}

#[test]
fn validate_and_parse_rejects_invalid() {
    assert!(validate_and_parse("https://google.com/user/book").is_err());
}

#[test]
fn parsed_url_equality() {
    let a = parse("https://anyflip.com/u/b").unwrap();
    let b = parse("https://online.anyflip.com/u/b").unwrap();
    assert_eq!(a, b);
}

#[test]
fn parsed_url_clone() {
    let a = parse("https://anyflip.com/u/b").unwrap();
    let b = a.clone();
    assert_eq!(a, b);
}

#[test]
fn segment_message_quotes_both_slugs() {
    let err = parse("https://anyflip.com/u@ser/book").unwrap_err();
    assert_eq!(err.to_string(), "Invalid URL: Invalid path segment: user='u@ser', book='book'");
}

#[test]
fn same_url_gives_same_temp_dir() {
    let a = parse("https://anyflip.com/user/book").unwrap();
    let b = parse("https://anyflip.com/user/book").unwrap();
    assert_eq!(a.temp_dir_name(), b.temp_dir_name());
    assert_eq!(a.temp_dir_name(), "user_book");
}

fn parts(scheme: &str, host: Option<&str>, path: &str) -> Option<UrlParts> {
    Some(UrlParts { scheme: scheme.to_string(), host: host.map(|h| h.to_string()), path: path.to_string() })
}

#[test]
fn parse_from_parts_reads_the_slugs() {
    let p = parse_from_parts(&parts("https", Some("www.anyflip.com"), "/alice/book-1/extra")).unwrap();
    assert_eq!(p.user, "alice");
    assert_eq!(p.book, "book-1");
    assert_eq!(p.base_url, "https://online.anyflip.com/alice/book-1");
}

#[test]
fn parse_from_parts_refusals() {
    let msg = |r: Result<anyflipdl::url_parser::ParsedUrl, anyflipdl::error::AppError>| r.unwrap_err().to_string();
    assert_eq!(msg(parse_from_parts(&None)), "Invalid URL: Invalid URL format");
    assert_eq!(msg(parse_from_parts(&parts("ftp", Some("anyflip.com"), "/u/b"))), "Invalid URL: must use HTTPS");
    assert_eq!(msg(parse_from_parts(&parts("https", None, "/u/b"))), "Invalid URL: No host in URL");
    assert_eq!(
        msg(parse_from_parts(&parts("https", Some("example.com"), "/u/b"))),
        "Invalid URL: Not an Anyflip URL: example.com"
    );
    assert_eq!(
        msg(parse_from_parts(&parts("https", Some("anyflip.com"), "/u"))),
        "Invalid URL: URL must contain at least /{user}/{book} path"
    );
    assert_eq!(
        msg(parse_from_parts(&parts("https", Some("anyflip.com"), "/u/..%2f"))),
        "Invalid URL: Path traversal detected"
    );
    assert_eq!(
        msg(parse_from_parts(&parts("https", Some("anyflip.com"), "/u/b%40ok"))),
        "Invalid URL: Invalid path segment: user='u', book='b%40ok'"
    );
}

#[test]
fn parse_hosts_name_the_same_document() {
    assert_eq!(parse("https://anyflip.com/u/b").unwrap(), parse("https://online.anyflip.com/u/b").unwrap());
    assert_eq!(parse("http://www.anyflip.com/u/b/").unwrap(), parse("https://online.anyflip.com/u/b").unwrap());
}

#[test]
fn parse_refuses_bad_slugs() {
    assert!(parse("https://anyflip.com/u@ser/book").unwrap_err().to_string().contains("Invalid path segment"));
    assert!(parse("https://anyflip.com/user/b%40ok").unwrap_err().to_string().contains("Invalid path segment"));
    assert_eq!(parse("").unwrap_err().to_string(), "Invalid URL: URL cannot be empty");
}
