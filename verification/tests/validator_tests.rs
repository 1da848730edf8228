use anyflipdl::validator::{
    check_url_parts, sanitize_filename, validate_format, validate_page_count, validate_save_path, validate_url, UrlParts,
};

#[test]
fn valid_anyflip_url() {
    assert!(validate_url("https://anyflip.com/user/book").is_ok());
}

#[test]
fn valid_online_url() {
    assert!(validate_url("https://online.anyflip.com/user/book").is_ok());
}

#[test]
fn trailing_slash_ok() {
    assert!(validate_url("https://anyflip.com/user/book/").is_ok());
}

#[test]
fn http_upgraded() {
    assert!(validate_url("http://anyflip.com/user/book").is_ok());
}

#[test]
fn empty_url_rejected() {
    let err = validate_url("").unwrap_err();
    assert!(err.to_string().contains("empty"));
}

#[test]
fn non_anyflip_rejected() {
    let err = validate_url("https://google.com/user/book").unwrap_err();
    assert!(err.to_string().contains("Not an Anyflip URL"));
}

#[test]
fn missing_book_rejected() {
    let err = validate_url("https://anyflip.com/user").unwrap_err();
    assert!(err.to_string().contains("at least /{user}/{book}"));
}

#[test]
fn extra_segments_accepted() {
    assert!(validate_url("https://anyflip.com/a/b/c").is_ok());
}

#[test]
fn path_traversal_rejected() {
    assert!(validate_url("https://anyflip.com/../book").is_err());
}

#[test]
fn encoded_traversal_rejected() {
    assert!(validate_url("https://anyflip.com/%2e%2e/book").is_err());
}

#[test]
fn ftp_scheme_rejected() {
    let err = validate_url("ftp://anyflip.com/user/book").unwrap_err();
    assert!(err.to_string().contains("HTTPS"));
}

#[test]
fn valid_format_pdf() {
    assert!(validate_format("pdf").is_ok());
}

#[test]
fn valid_format_epub() {
    assert!(validate_format("epub").is_ok());
}

#[test]
fn invalid_format_docx() {
    let err = validate_format("docx").unwrap_err();
    assert!(err.to_string().contains("must be 'pdf' or 'epub'"));
}

#[test]
fn invalid_format_uppercase() {
    let err = validate_format("PDF").unwrap_err();
    assert!(err.to_string().contains("must be 'pdf' or 'epub'"));
}

#[test]
fn valid_page_count() {
    assert!(validate_page_count(42).is_ok());
}

#[test]
fn zero_page_count() {
    let err = validate_page_count(0).unwrap_err();
    assert!(err.to_string().contains("greater than zero"));
}

#[test]
fn max_page_count() {
    assert!(validate_page_count(10_000).is_ok());
}

#[test]
fn over_max_page_count() {
    let err = validate_page_count(10_001).unwrap_err();
    assert!(err.to_string().contains("exceeds maximum"));
}

#[test]
fn valid_save_path() {
    assert!(validate_save_path("/home/user/downloads").is_ok());
}

#[test]
fn empty_save_path() {
    let err = validate_save_path("").unwrap_err();
    assert!(err.to_string().contains("empty"));
}

#[test]
fn sanitize_normal_name() {
    assert_eq!(sanitize_filename("mybook.pdf"), "mybook.pdf");
}

#[test]
fn sanitize_strips_slashes() {
    assert_eq!(sanitize_filename("../etc/passwd"), "_etc_passwd");
}

#[test]
fn sanitize_strips_colon() {
    assert_eq!(sanitize_filename("C:\\file"), "C__file");
}

#[test]
fn sanitize_strips_special_chars() {
    assert_eq!(sanitize_filename("a*b?c\"d"), "a_b_c_d");
}

#[test]
fn sanitize_trims_dots_and_spaces() {
    assert_eq!(sanitize_filename("  file. "), "file");
}

#[test]
fn sanitize_empty_after_stripping() {
    assert_eq!(sanitize_filename("...   ..."), "");
}

#[test]
fn sanitize_truncates_long_name() {
    let long = "a".repeat(300);
    assert!(sanitize_filename(&long).len() <= 200);
}

#[test]
fn url_messages_are_exact() {
    assert_eq!(validate_url("").unwrap_err().to_string(), "Invalid URL: URL cannot be empty");
    assert_eq!(
        validate_url("https://google.com/user/book").unwrap_err().to_string(),
        "Invalid URL: Not an Anyflip URL: google.com"
    );
    assert_eq!(
        validate_url("ftp://anyflip.com/user/book").unwrap_err().to_string(),
        "Invalid URL: must use HTTPS"
    );
    assert_eq!(
        validate_url("https://www.anyflip.com/").unwrap_err().to_string(),
        "Invalid URL: URL must contain at least /{user}/{book} path"
    );
    assert!(validate_url("https://www.anyflip.com/u/b").is_ok());
    assert_eq!(validate_url("not a url").unwrap_err().to_string(), "Invalid URL: Invalid URL format");
}

#[test]
fn page_count_messages_are_exact() {
    assert_eq!(
        validate_page_count(0).unwrap_err().to_string(),
        "Invalid URL: Page count must be greater than zero"
    );
    assert_eq!(
        validate_page_count(10_001).unwrap_err().to_string(),
        "Invalid URL: Page count 10001 exceeds maximum of 10000"
    );
    assert_eq!(
        validate_format("docx").unwrap_err().to_string(),
        "Invalid URL: Invalid format 'docx': must be 'pdf' or 'epub'"
    );
}

#[test]
fn sanitize_replaces_nul_and_cuts_at_two_hundred_chars() {
    assert_eq!(sanitize_filename("a\0b|c"), "a_b_c");
    let long: String = "\u{00e9}".repeat(250);
    assert_eq!(sanitize_filename(&long).chars().count(), 200);
}

#[test]
fn traversal_check_ignores_letter_case() {
    assert_eq!(
        validate_url("https://anyflip.com/u/%2E%2Ebook").unwrap_err().to_string(),
        "Invalid URL: Path traversal detected"
    );
    assert_eq!(
        validate_url("https://anyflip.com/a..b/book").unwrap_err().to_string(),
        "Invalid URL: Path traversal detected"
    );
}

#[test]
fn sanitized_names_are_plain() {
    assert_eq!(sanitize_filename(".."), "");
    assert_eq!(sanitize_filename(". /x/ ."), "_x_");
    let r = sanitize_filename("a<b>c|d?e*f\"g:h\\i/j");
    assert!(!r.contains(|c: char| "/\\:*?\"<>|\0".contains(c)));
}

#[test]
fn sanitizing_twice_changes_nothing() {
    for name in ["../etc/passwd", "  file. ", "a*b?c\"d", "...   ...", "ok.pdf", " .x. "] {
        let once = sanitize_filename(name);
        assert_eq!(sanitize_filename(&once), once);
    }
}

#[test]
fn check_url_parts_accepts_and_refuses() {
    let ok = Some(UrlParts { scheme: "https".to_string(), host: Some("online.anyflip.com".to_string()), path: "/u/b".to_string() });
    assert!(check_url_parts(&ok).is_ok());
    let bad = Some(UrlParts { scheme: "https".to_string(), host: Some("anyflip.com".to_string()), path: "/../b".to_string() });
    assert_eq!(check_url_parts(&bad).unwrap_err().to_string(), "Invalid URL: Path traversal detected");
    assert_eq!(check_url_parts(&None).unwrap_err().to_string(), "Invalid URL: Invalid URL format");
}
