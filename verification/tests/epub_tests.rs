use anyflipdl::document::DocumentMetadata;
use anyflipdl::epub::{conversion_preconditions, epub_err, epub_metadata_entries, epub_page};

fn pairs(v: Vec<(String, String)>) -> Vec<(String, String)> {
    v
}

#[test]
fn metadata_entries_in_order() {
    let none = pairs(epub_metadata_entries(&None));
    assert_eq!(
        none,
        vec![
            ("title".to_string(), "AnyflipDL Document".to_string()),
            ("lang".to_string(), "en".to_string()),
            ("publisher".to_string(), "AnyflipDL".to_string()),
        ]
    );
    let meta = DocumentMetadata {
        url: "https://online.anyflip.com/u/b".to_string(),
        title: "Book".to_string(),
        page_count: 2,
        page_filenames: vec![],
        author: Some("Ann".to_string()),
        date: None,
        thumbnail: None,
        password_protected: false,
    };
    let some = epub_metadata_entries(&Some(meta));
    let keys: Vec<&str> = some.iter().map(|(k, _)| k.as_str()).collect();
    assert_eq!(keys, vec!["title", "lang", "creator", "source", "description", "publisher"]);
    assert_eq!(some[4].1, "Converted from Anyflip: https://online.anyflip.com/u/b");
}

#[test]
fn page_documents() {
    let p = epub_page(3);
    assert_eq!(p.image_href, "images/3.webp");
    assert_eq!(p.content_href, "page_3.xhtml");
    assert_eq!(p.title, "Page 3");
    assert!(!p.is_cover);
    assert!(epub_page(1).is_cover);
    assert_eq!(
        p.xhtml,
        "<?xml version=\"1.0\" encoding=\"UTF-8\"?>\n<!DOCTYPE html>\n<html xmlns=\"http://www.w3.org/1999/xhtml\">\n<head>\n  <title>Page 3</title>\n  <link rel=\"stylesheet\" type=\"text/css\" href=\"stylesheet.css\"/>\n</head>\n<body>\n  <img src=\"images/3.webp\" alt=\"Page 3\" type=\"image/webp\"/>\n</body>\n</html>"
    );
}

#[test]
fn conversion_needs_pages_and_a_directory() {
    assert_eq!(
        conversion_preconditions(false, "/t", 3).unwrap_err().to_string(),
        "File system error: Temp directory does not exist: /t"
    );
    assert_eq!(
        conversion_preconditions(true, "/t", 0).unwrap_err().to_string(),
        "Conversion error: No pages to convert"
    );
    assert!(conversion_preconditions(true, "/t", 1).is_ok());
    assert_eq!(epub_err("bad").to_string(), "Conversion error: bad");
}

#[test]
fn build_epub_writes_a_zip_book() {
    let meta: Option<anyflipdl::document::DocumentMetadata> = None;
    let pages = vec![b"RIFF0000WEBPpage1".to_vec(), b"RIFF0000WEBPpage2".to_vec()];
    let bytes = match anyflipdl::epub::build_epub(&meta, &pages) {
        Ok(b) => b,
        Err(e) => panic!("{}", e.to_string()),
    };
    assert!(bytes.starts_with(b"PK"));
    let text = String::from_utf8_lossy(&bytes);
    assert!(text.contains("mimetype"));
    assert!(text.contains("OEBPS/images/1.webp"));
    assert!(text.contains("OEBPS/page_2.xhtml"));
}

#[test]
fn a_started_book_takes_pages_one_by_one() {
    let meta: Option<anyflipdl::document::DocumentMetadata> = None;
    let mut doc = anyflipdl::epub::epub_begin(&meta).ok().unwrap();
    assert!(anyflipdl::epub::epub_append_page(&mut doc, 1, b"img").is_ok());
    assert!(anyflipdl::epub::epub_append_page(&mut doc, 2, b"img").is_ok());
}

#[test]
fn book_with_document_metadata_builds() {
    let meta = DocumentMetadata {
        url: "https://online.anyflip.com/u/b".to_string(),
        title: "Book <1>".to_string(),
        page_count: 1,
        page_filenames: vec![],
        author: Some("Ann".to_string()),
        date: None,
        thumbnail: None,
        password_protected: false,
    };
    let bytes = match anyflipdl::epub::build_epub(&Some(meta), &vec![b"page".to_vec()]) {
        Ok(b) => b,
        Err(e) => panic!("{}", e.to_string()),
    };
    assert!(bytes.starts_with(b"PK"));
}
