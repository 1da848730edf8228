use anyflipdl::document::DocumentMetadata;
use anyflipdl::error::AppError;
use anyflipdl::pages::{
    after_attempt, check_page_response, first_error, page_url, page_url_with_password,
    pages_to_fetch, AttemptStep, MAX_RETRIES,
};
use anyflipdl::url_parser::ParsedUrl;

fn make_parsed_url() -> ParsedUrl {
    ParsedUrl {
        user: "testuser".to_string(),
        book: "testbook".to_string(),
        base_url: "https://online.anyflip.com/testuser/testbook".to_string(),
    }
}

fn metadata_with(names: Vec<&str>, page_count: usize) -> DocumentMetadata {
    DocumentMetadata {
        url: make_parsed_url().base_url,
        title: "Test".to_string(),
        page_count,
        page_filenames: names.into_iter().map(|s| s.to_string()).collect(),
        author: None,
        date: None,
        thumbnail: None,
        password_protected: false,
    }
}

#[test]
fn page_url_with_filenames() {
    let parsed = make_parsed_url();
    let metadata = metadata_with(vec!["page001.webp", "page002.webp", "page003.webp"], 3);
    let url = page_url(&parsed, &metadata, 1);
    assert_eq!(url, "https://online.anyflip.com/testuser/testbook/files/large/page001.webp");
    let url = page_url(&parsed, &metadata, 3);
    assert_eq!(url, "https://online.anyflip.com/testuser/testbook/files/large/page003.webp");
}

#[test]
fn page_url_without_filenames() {
    let parsed = make_parsed_url();
    let metadata = metadata_with(vec![], 10);
    let url = page_url(&parsed, &metadata, 5);
    assert_eq!(url, "https://online.anyflip.com/testuser/testbook/files/mobile/5.webp");
}

#[test]
fn page_url_fallback_when_index_out_of_bounds() {
    let parsed = make_parsed_url();
    let metadata = metadata_with(vec!["only_first.webp"], 3);
    let url = page_url(&parsed, &metadata, 2);
    assert_eq!(url, "https://online.anyflip.com/testuser/testbook/files/mobile/2.webp");
}

#[test]
fn password_is_form_encoded() {
    let parsed = make_parsed_url();
    let metadata = metadata_with(vec![], 1);
    assert_eq!(
        page_url_with_password(&parsed, &metadata, 1, "a b&c=d/\u{00e9}*-._~"),
        "https://online.anyflip.com/testuser/testbook/files/mobile/1.webp?password=a+b%26c%3Dd%2F%C3%A9*-._%7E"
    );
    let named = metadata_with(vec!["x.webp"], 1);
    assert_eq!(
        page_url_with_password(&parsed, &named, 1, "pw"),
        "https://online.anyflip.com/testuser/testbook/files/large/x.webp?password=pw"
    );
}

#[test]
fn page_response_checks() {
    let url = "https://cdn.invalid/1.webp";
    assert!(check_page_response(200, &[0xFF, 0xD8, 0xFF, 0xD9], url).is_ok());
    assert!(check_page_response(204, b"RIFF\0\0\0\0WEBPVP8 ", url).is_ok());
    let forbidden = check_page_response(403, b"", url).unwrap_err();
    assert_eq!(forbidden.to_string(), "Password required: Password required to download pages");
    let missing = check_page_response(404, b"", url).unwrap_err();
    assert_eq!(missing.to_string(), "Download error: HTTP 404 for page https://cdn.invalid/1.webp");
    let html = check_page_response(200, b"<html>not a jpeg</html>", url).unwrap_err();
    assert_eq!(
        html.to_string(),
        "Download error: Invalid image data for https://cdn.invalid/1.webp (23 bytes, expected JPEG or WebP magic bytes)"
    );
}

#[test]
fn retries_stop_after_the_last_attempt() {
    assert!(matches!(after_attempt(0, Ok(())), AttemptStep::Succeeded));
    let mut attempt = 0;
    let mut tries = 0;
    loop {
        tries += 1;
        match after_attempt(attempt, Err(AppError::DownloadError(format!("fail {}", attempt)))) {
            AttemptStep::Retry(next) => attempt = next,
            AttemptStep::GaveUp(e) => {
                assert_eq!(e.to_string(), "Download error: fail 3");
                break;
            }
            AttemptStep::Succeeded => panic!("a failure cannot succeed"),
        }
    }
    assert_eq!(tries, MAX_RETRIES + 1);
}

#[test]
fn the_first_failure_wins() {
    let results = vec![
        Ok(()),
        Err(AppError::DownloadError("a".to_string())),
        Err(AppError::NetworkError("b".to_string())),
    ];
    assert_eq!(first_error(results).unwrap_err().to_string(), "Download error: a");
    assert!(first_error(vec![Ok(()), Ok(())]).is_ok());
    assert!(first_error(vec![]).is_ok());
}

#[test]
fn download_all_skips_cached_pages() {
    assert_eq!(pages_to_fetch(&vec![true, false, true]), vec![2]);
    assert_eq!(pages_to_fetch(&vec![false, false]), vec![1, 2]);
    assert_eq!(pages_to_fetch(&vec![]), Vec::<usize>::new());
}

#[test]
fn download_page_rejects_non_jpeg_response() {
    let result = check_page_response(200, b"<html>not a jpeg</html>", "http://127.0.0.1/files/mobile/1.webp");
    assert!(result.is_err());
    let err_msg = result.unwrap_err().to_string();
    assert!(err_msg.contains("Invalid image data"), "Expected image validation error, got: {}", err_msg);
}

#[test]
fn download_page_accepts_valid_jpeg_header() {
    let jpeg_data = vec![0xFF, 0xD8, 0xFF, 0xD9];
    let result = check_page_response(200, &jpeg_data, "http://127.0.0.1/files/mobile/1.webp");
    assert!(result.is_ok());
}

#[test]
fn resume_fetches_only_the_missing_pages() {
    let cached = vec![true, true, false, true, false];
    let todo = pages_to_fetch(&cached);
    assert_eq!(todo, vec![3, 5]);
    for p in 1..=cached.len() {
        assert_eq!(todo.contains(&p), !cached[p - 1]);
    }
}
