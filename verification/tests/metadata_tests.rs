use anyflipdl::json::{parse_json_text, JsonNumber, JsonValue};
use anyflipdl::metadata::{
    basename_from_path, check_config_response, config_from_parsed, config_js_url_with_password,
    derive_thumbnail_url, extract_json_object, extract_metadata, needs_page_probe, parse_config_js,
    with_probed_page_count,
};
use anyflipdl::url_parser::{parse, ParsedUrl};

fn json(text: &str) -> JsonValue {
    parse_json_text(text).unwrap()
}

fn str_of<'a>(v: &'a JsonValue, key: &str) -> Option<&'a str> {
    v.get(key).and_then(|x| x.as_str())
}

fn num_of(v: &JsonValue, key: &str) -> Option<u64> {
    v.get(key).and_then(|x| x.as_u64())
}

fn test_parsed_url() -> ParsedUrl {
    parse("https://anyflip.com/testuser/testbook").unwrap()
}

#[test]
fn parse_standard_config_js() {
    let val = parse_config_js(r#"var config = {"docTitle":"X","pageCount":10};"#).unwrap();
    assert_eq!(str_of(&val, "docTitle"), Some("X"));
    assert_eq!(num_of(&val, "pageCount"), Some(10));
}

#[test]
fn parse_let_config() {
    let val = parse_config_js(r#"let config = {"docTitle":"Y","pageCount":5};"#).unwrap();
    assert_eq!(str_of(&val, "docTitle"), Some("Y"));
}

#[test]
fn parse_const_config() {
    let val = parse_config_js(r#"const config = {"docTitle":"Z","pageCount":3};"#).unwrap();
    assert_eq!(str_of(&val, "docTitle"), Some("Z"));
}

#[test]
fn parse_with_whitespace() {
    let input = r#"
        var config = {
            "docTitle": "Spaced Out",
            "pageCount": 42
        };
    "#;
    let val = parse_config_js(input).unwrap();
    assert_eq!(str_of(&val, "docTitle"), Some("Spaced Out"));
    assert_eq!(num_of(&val, "pageCount"), Some(42));
}

#[test]
fn parse_no_wrapper_raw_json() {
    let val = parse_config_js(r#"{"docTitle":"Raw","pageCount":7}"#).unwrap();
    assert_eq!(str_of(&val, "docTitle"), Some("Raw"));
}

#[test]
fn parse_invalid_js_returns_error() {
    let err = parse_config_js("not valid at all").unwrap_err();
    assert!(err.to_string().contains("No JSON object"));
}

#[test]
fn parse_malformed_json_returns_error() {
    let err = parse_config_js(r#"var config = {invalid json};"#).unwrap_err();
    assert!(err.to_string().contains("Unparseable"));
}

#[test]
fn parse_new_format_extracts_title_and_page_count_from_meta() {
    let input = r#"var htmlConfig = {
        "bookConfig": "v010001102856JepyGfqw...",
        "meta": {
            "title": "Monogatari Series Volume 1",
            "pageCount": 308,
            "url": "https://online.anyflip.com/jjyfm/ikur/index.html"
        }
    };"#;
    let val = parse_config_js(input).unwrap();
    assert_eq!(str_of(&val, "title"), Some("Monogatari Series Volume 1"));
    assert_eq!(num_of(&val, "numPages"), Some(308));
}

#[test]
fn parse_new_format_extracts_page_filenames_from_fliphtml5_pages() {
    let input = r#"var htmlConfig = {
        "bookConfig": "v01abc...",
        "meta": { "title": "X", "pageCount": 2 },
        "fliphtml5_pages": [
            {"n": ["../files/mobile/1.webp"], "t": "../files/thumb/1.webp"},
            {"n": ["../files/mobile/2.webp"], "t": "../files/thumb/2.webp"}
        ]
    };"#;
    let val = parse_config_js(input).unwrap();
    assert_eq!(str_of(&val, "title"), Some("X"));
    assert_eq!(num_of(&val, "numPages"), Some(2));
    let files = val.get("pageFileNames").unwrap().as_array().unwrap();
    assert_eq!(files.len(), 2);
    assert_eq!(files[0].as_str(), Some("1.webp"));
    assert_eq!(files[1].as_str(), Some("2.webp"));
}

#[test]
fn parse_new_format_ignores_empty_title() {
    let input = r#"var htmlConfig = {
        "bookConfig": "v01abc...",
        "meta": { "title": "", "pageCount": 5 }
    };"#;
    let val = parse_config_js(input).unwrap();
    assert!(val.get("title").is_none(), "empty title should not be inserted");
    assert_eq!(num_of(&val, "numPages"), Some(5));
}

#[test]
fn parse_new_format_ignores_zero_page_count() {
    let input = r#"var htmlConfig = {
        "bookConfig": "v01abc...",
        "meta": { "title": "X", "pageCount": 0 }
    };"#;
    let val = parse_config_js(input).unwrap();
    assert_eq!(str_of(&val, "title"), Some("X"));
    assert!(val.get("numPages").is_none(), "zero pageCount should not be inserted");
}

#[test]
fn parse_new_format_missing_meta_and_fliphtml5_pages_returns_error() {
    let input = r#"var htmlConfig = { "bookConfig": "v01abc...", "bmtConfig": {} };"#;
    let err = parse_config_js(input).unwrap_err();
    assert!(err.to_string().contains("missing both meta and fliphtml5_pages"));
}

#[test]
fn parse_new_format_meta_only_no_pages_still_works() {
    let input = r#"var htmlConfig = {
        "bookConfig": "v01abc...",
        "meta": { "title": "Solo", "pageCount": 7 }
    };"#;
    let val = parse_config_js(input).unwrap();
    assert_eq!(str_of(&val, "title"), Some("Solo"));
    assert_eq!(num_of(&val, "numPages"), Some(7));
    assert!(val.get("pageFileNames").is_none());
}

#[test]
fn parse_new_format_real_fixture_from_jjyfm_ikur() {
    let input = r#"var htmlConfig = {
        "bookConfig": "v010001102856JepyGfqwGXo3AdmvJej8PSk3Jeu6MTszBdn8ESsvKSh3Hah...",
        "meta": {
            "title": "Monogatari Series Volume 1 - Bakemonogatari Part 1",
            "description": "Bakemonogatari Part 1",
            "url": "https://online.anyflip.com/jjyfm/ikur/index.html",
            "pageCount": 308,
            "htmlTemplate": "Handy"
        },
        "bmtConfig": {"duration": 500},
        "fliphtml5_pages": [
            {"n": ["../files/mobile/1.webp"], "t": "../files/thumb/1.webp"},
            {"n": ["../files/mobile/2.webp"], "t": "../files/thumb/2.webp"},
            {"n": ["../files/mobile/308.webp"], "t": "../files/thumb/308.webp"}
        ]
    };"#;
    let val = parse_config_js(input).unwrap();
    assert_eq!(
        str_of(&val, "title"),
        Some("Monogatari Series Volume 1 - Bakemonogatari Part 1")
    );
    assert_eq!(num_of(&val, "numPages"), Some(308));
    let files = val.get("pageFileNames").unwrap().as_array().unwrap();
    assert_eq!(files.len(), 3);
    assert_eq!(files[0].as_str(), Some("1.webp"));
    assert_eq!(files[2].as_str(), Some("308.webp"));
}

#[test]
fn full_pipeline_new_format() {
    let input = r#"var htmlConfig = {
        "bookConfig": "v01abc...",
        "meta": { "title": "Pipeline Book", "pageCount": 12 },
        "fliphtml5_pages": [
            {"n": ["../files/mobile/1.webp"], "t": "../files/thumb/1.webp"}
        ]
    };"#;
    let config = parse_config_js(input).unwrap();
    let meta = extract_metadata(config, &test_parsed_url()).unwrap();
    assert_eq!(meta.title, "Pipeline Book");
    assert_eq!(meta.page_count, 12);
    assert_eq!(meta.page_filenames, vec!["1.webp"]);
    assert!(!meta.password_protected);
}

#[test]
fn new_format_strips_relative_path_prefix_from_page_filenames() {
    let input = r#"var htmlConfig = {
        "bookConfig": "v01abc...",
        "meta": { "title": "Hashed Doc", "pageCount": 3 },
        "fliphtml5_pages": [
            {"n": ["../files/mobile/abc123.webp"]},
            {"n": ["../files/mobile/def456.webp"]},
            {"n": ["../files/mobile/ghi789.webp"]}
        ]
    };"#;
    let config = parse_config_js(input).unwrap();
    let meta = extract_metadata(config, &test_parsed_url()).unwrap();
    assert_eq!(
        meta.page_filenames,
        vec!["abc123.webp", "def456.webp", "ghi789.webp"],
        "page_filenames should be bare basenames, not relative paths"
    );
}

#[test]
fn new_format_legacy_numeric_naming_also_strips_prefix() {
    let input = r#"var htmlConfig = {
        "bookConfig": "v01abc...",
        "meta": { "title": "Legacy Doc", "pageCount": 2 },
        "fliphtml5_pages": [
            {"n": ["../files/mobile/1.webp"]},
            {"n": ["../files/mobile/2.webp"]}
        ]
    };"#;
    let config = parse_config_js(input).unwrap();
    let meta = extract_metadata(config, &test_parsed_url()).unwrap();
    assert_eq!(meta.page_filenames, vec!["1.webp", "2.webp"]);
}

#[test]
fn extract_with_doc_title() {
    let meta = extract_metadata(json(r#"{"docTitle": "My Doc", "pageCount": 10}"#), &test_parsed_url()).unwrap();
    assert_eq!(meta.title, "My Doc");
}

#[test]
fn extract_with_title_alias() {
    let meta = extract_metadata(json(r#"{"title": "My Doc", "pageCount": 10}"#), &test_parsed_url()).unwrap();
    assert_eq!(meta.title, "My Doc");
}

#[test]
fn extract_missing_title_defaults_to_untitled() {
    let meta = extract_metadata(json(r#"{"pageCount": 10}"#), &test_parsed_url()).unwrap();
    assert_eq!(meta.title, "Untitled");
}

#[test]
fn extract_page_count() {
    let meta = extract_metadata(json(r#"{"docTitle": "X", "pageCount": 42}"#), &test_parsed_url()).unwrap();
    assert_eq!(meta.page_count, 42);
}

#[test]
fn extract_page_count_alias_total_pages() {
    let meta = extract_metadata(json(r#"{"docTitle": "X", "totalPages": 99}"#), &test_parsed_url()).unwrap();
    assert_eq!(meta.page_count, 99);
}

#[test]
fn extract_page_count_alias_num_pages() {
    let meta = extract_metadata(json(r#"{"docTitle": "X", "numPages": 7}"#), &test_parsed_url()).unwrap();
    assert_eq!(meta.page_count, 7);
}

#[test]
fn extract_zero_pages_returns_error() {
    let err = extract_metadata(json(r#"{"docTitle": "X", "pageCount": 0}"#), &test_parsed_url()).unwrap_err();
    assert!(err.to_string().contains("Page count is 0"));
}

#[test]
fn extract_missing_page_count_returns_error() {
    let err = extract_metadata(json(r#"{"docTitle": "X"}"#), &test_parsed_url()).unwrap_err();
    assert!(err.to_string().contains("Missing page count"));
}

#[test]
fn extract_with_filenames() {
    let meta = extract_metadata(
        json(r#"{"docTitle": "X", "pageCount": 2, "pageFileNames": ["a.jpg", "b.jpg"]}"#),
        &test_parsed_url(),
    )
    .unwrap();
    assert_eq!(meta.page_filenames, vec!["a.jpg", "b.jpg"]);
}

#[test]
fn extract_with_filenames_alias_pages() {
    let meta = extract_metadata(
        json(r#"{"docTitle": "X", "pageCount": 2, "pages": ["c.webp", "d.webp"]}"#),
        &test_parsed_url(),
    )
    .unwrap();
    assert_eq!(meta.page_filenames, vec!["c.webp", "d.webp"]);
}

#[test]
fn extract_without_filenames_defaults_to_empty() {
    let meta = extract_metadata(json(r#"{"docTitle": "X", "pageCount": 5}"#), &test_parsed_url()).unwrap();
    assert!(meta.page_filenames.is_empty());
}

#[test]
fn extract_sets_url_from_parsed_url() {
    let meta = extract_metadata(json(r#"{"docTitle": "X", "pageCount": 1}"#), &test_parsed_url()).unwrap();
    assert_eq!(meta.url, "https://online.anyflip.com/testuser/testbook");
}

#[test]
fn extract_all_fields_present() {
    let meta = extract_metadata(
        json(r#"{"docTitle": "Full Document", "pageCount": 3, "pageFileNames": ["1.jpg", "2.jpg", "3.jpg"]}"#),
        &test_parsed_url(),
    )
    .unwrap();
    assert_eq!(meta.title, "Full Document");
    assert_eq!(meta.page_count, 3);
    assert_eq!(meta.page_filenames.len(), 3);
    assert_eq!(meta.url, "https://online.anyflip.com/testuser/testbook");
}

#[test]
fn full_pipeline_var_config() {
    let config = parse_config_js(r#"var config = {"docTitle":"Pipeline Test","pageCount":25,"pageFileNames":["1.jpg"]};"#).unwrap();
    let meta = extract_metadata(config, &test_parsed_url()).unwrap();
    assert_eq!(meta.title, "Pipeline Test");
    assert_eq!(meta.page_count, 25);
    assert_eq!(meta.page_filenames, vec!["1.jpg"]);
}

#[test]
fn full_pipeline_with_aliases() {
    let config = parse_config_js(r#"let config = {"title":"Aliased","totalPages":8,"pages":["a.webp"]};"#).unwrap();
    let meta = extract_metadata(config, &test_parsed_url()).unwrap();
    assert_eq!(meta.title, "Aliased");
    assert_eq!(meta.page_count, 8);
    assert_eq!(meta.page_filenames, vec!["a.webp"]);
}

#[test]
fn full_pipeline_minimal_valid() {
    let config = parse_config_js(r#"const config = {"pageCount":1};"#).unwrap();
    let meta = extract_metadata(config, &test_parsed_url()).unwrap();
    assert_eq!(meta.title, "Untitled");
    assert_eq!(meta.page_count, 1);
    assert!(meta.page_filenames.is_empty());
}

#[test]
fn extract_with_date() {
    let meta = extract_metadata(json(r#"{"docTitle": "X", "pageCount": 5, "date": "2024-08-15"}"#), &test_parsed_url()).unwrap();
    assert_eq!(meta.date, Some("2024-08-15".to_string()));
}

#[test]
fn extract_date_alias_create_date() {
    let meta = extract_metadata(json(r#"{"docTitle": "X", "pageCount": 5, "createDate": "2023-01-01"}"#), &test_parsed_url()).unwrap();
    assert_eq!(meta.date, Some("2023-01-01".to_string()));
}

#[test]
fn extract_date_alias_book_create_date() {
    let meta = extract_metadata(json(r#"{"docTitle": "X", "pageCount": 5, "bookCreateDate": "March 3, 2022"}"#), &test_parsed_url()).unwrap();
    assert_eq!(meta.date, Some("March 3, 2022".to_string()));
}

#[test]
fn extract_date_alias_publish_date() {
    let meta = extract_metadata(json(r#"{"docTitle": "X", "pageCount": 5, "publishDate": "2021-12-25"}"#), &test_parsed_url()).unwrap();
    assert_eq!(meta.date, Some("2021-12-25".to_string()));
}

#[test]
fn extract_missing_date_is_none() {
    let meta = extract_metadata(json(r#"{"docTitle": "X", "pageCount": 5}"#), &test_parsed_url()).unwrap();
    assert!(meta.date.is_none());
}

#[test]
fn extract_thumbnail_derived_from_base_url() {
    let meta = extract_metadata(json(r#"{"docTitle": "X", "pageCount": 5}"#), &test_parsed_url()).unwrap();
    assert_eq!(
        meta.thumbnail,
        Some("https://online.anyflip.com/testuser/testbook/files/large/1.jpg".to_string())
    );
}

#[test]
fn extract_thumbnail_present_even_when_date_missing() {
    let meta = extract_metadata(json(r#"{"docTitle": "X", "pageCount": 5}"#), &test_parsed_url()).unwrap();
    assert!(meta.thumbnail.is_some());
}

#[test]
fn extract_password_protected_defaults_to_false() {
    let meta = extract_metadata(json(r#"{"docTitle": "X", "pageCount": 5}"#), &test_parsed_url()).unwrap();
    assert!(!meta.password_protected);
}

#[test]
fn basename_strips_relative_directory_prefix() {
    assert_eq!(basename_from_path("../files/mobile/abc123.webp"), "abc123.webp");
}

#[test]
fn basename_strips_thumb_prefix() {
    assert_eq!(basename_from_path("../files/thumb/abc123.webp"), "abc123.webp");
}

#[test]
fn basename_passes_through_already_bare_filename() {
    assert_eq!(basename_from_path("page001.webp"), "page001.webp");
}

#[test]
fn basename_handles_numeric_legacy_names() {
    assert_eq!(basename_from_path("../files/mobile/1.webp"), "1.webp");
}

#[test]
fn derive_thumbnail_url_empty_base_returns_none() {
    let parsed = parse("https://anyflip.com/testuser/testbook").unwrap();
    let mut with_empty = parsed.clone();
    with_empty.base_url = String::new();
    assert!(derive_thumbnail_url(&with_empty).is_none());
}

#[test]
fn derive_thumbnail_url_uses_base_url() {
    let parsed = parse("https://anyflip.com/testuser/testbook").unwrap();
    let url = derive_thumbnail_url(&parsed).unwrap();
    assert_eq!(url, "https://online.anyflip.com/testuser/testbook/files/large/1.jpg");
}

#[test]
fn extract_author_is_the_user_slug() {
    let meta = extract_metadata(json(r#"{"pageCount": 5}"#), &test_parsed_url()).unwrap();
    assert_eq!(meta.author, Some("testuser".to_string()));
}

#[test]
fn extract_refuses_a_title_of_the_wrong_type() {
    let err = extract_metadata(json(r#"{"docTitle": 5, "pageCount": 5}"#), &test_parsed_url()).unwrap_err();
    assert!(err.to_string().starts_with("Metadata error: Invalid config.js structure: "));
}

#[test]
fn json_object_spans_first_to_last_brace() {
    assert_eq!(extract_json_object("a {x} b {y} c").unwrap(), "{x} b {y}");
    assert_eq!(
        extract_json_object("} {").unwrap_err().to_string(),
        "Metadata error: No JSON object found in config.js"
    );
}

#[test]
fn probed_page_count_fills_in_count_and_title() {
    let config = json(r#"{"docTitle": "Has title"}"#);
    assert!(needs_page_probe(&config));
    let filled = with_probed_page_count(config, 17);
    assert!(!needs_page_probe(&filled));
    assert_eq!(num_of(&filled, "numPages"), Some(17));
    let bare = with_probed_page_count(json(r#"{}"#), 3);
    assert_eq!(str_of(&bare, "title"), Some("Untitled"));
    let meta = extract_metadata(bare, &test_parsed_url()).unwrap();
    assert_eq!(meta.page_count, 3);
    assert!(!needs_page_probe(&json(r#"{"numPages": 4}"#)));
    assert!(needs_page_probe(&json(r#"{"numPages": 0}"#)));
}

#[test]
fn probed_count_keeps_the_title_alias() {
    let filled = with_probed_page_count(json(r#"{"docTitle": "Has title"}"#), 17);
    assert_eq!(str_of(&filled, "title"), None);
    let meta = extract_metadata(filled, &test_parsed_url()).unwrap();
    assert_eq!(meta.title, "Has title");
    assert_eq!(meta.page_count, 17);
}

#[test]
fn count_aliases_need_no_probe() {
    let config = json(r#"{"docTitle":"X","pageCount":10}"#);
    assert!(!needs_page_probe(&config));
    let meta = extract_metadata(config, &test_parsed_url()).unwrap();
    assert_eq!(meta.title, "X");
    assert_eq!(meta.page_count, 10);
    assert!(meta.page_filenames.is_empty());
    assert!(!meta.password_protected);
    assert_eq!(meta.url, "https://online.anyflip.com/testuser/testbook");
    assert!(!needs_page_probe(&json(r#"{"totalPages": 3}"#)));
    assert!(!needs_page_probe(&json(r#"{"page_count": 3}"#)));
    assert!(needs_page_probe(&json(r#"{"pageCount": 0}"#)));
    assert!(needs_page_probe(&json(r#"{"totalPages": "many"}"#)));
}

#[test]
fn probed_count_replaces_an_unusable_alias() {
    let filled = with_probed_page_count(json(r#"{"title":"T","pageCount":0}"#), 9);
    assert!(!needs_page_probe(&filled));
    assert_eq!(num_of(&filled, "pageCount"), Some(9));
    assert_eq!(num_of(&filled, "numPages"), None);
    let meta = extract_metadata(filled, &test_parsed_url()).unwrap();
    assert_eq!(meta.page_count, 9);
}

#[test]
fn config_response_statuses() {
    assert!(check_config_response(200, "200 OK", false).is_ok());
    assert_eq!(
        check_config_response(403, "403 Forbidden", false).unwrap_err().to_string(),
        "Password required: Document is password-protected"
    );
    assert_eq!(
        check_config_response(403, "403 Forbidden", true).unwrap_err().to_string(),
        "Password required: Incorrect password or document is still protected"
    );
    assert_eq!(
        check_config_response(404, "404 Not Found", false).unwrap_err().to_string(),
        "Metadata error: Failed to fetch config.js: HTTP 404 Not Found"
    );
}

#[test]
fn config_url_carries_the_password_as_is() {
    let p = test_parsed_url();
    assert_eq!(
        config_js_url_with_password(&p, "a b"),
        "https://online.anyflip.com/testuser/testbook/mobile/javascript/config.js?password=a b"
    );
}

#[test]
fn extract_reads_an_array_by_position() {
    let meta = extract_metadata(json(r#"["T", 3, null, "2020"]"#), &test_parsed_url()).unwrap();
    assert_eq!(meta.title, "T");
    assert_eq!(meta.page_count, 3);
    assert!(meta.page_filenames.is_empty());
    assert_eq!(meta.date, Some("2020".to_string()));
    let short = extract_metadata(json(r#"["T"]"#), &test_parsed_url()).unwrap_err();
    assert!(short.to_string().starts_with("Metadata error: Invalid config.js structure: invalid length"));
    let wrong = extract_metadata(json(r#"[1, 3, null, null]"#), &test_parsed_url()).unwrap_err();
    assert_eq!(
        wrong.to_string(),
        "Metadata error: Invalid config.js structure: invalid type: integer `1`, expected a string"
    );
}

#[test]
fn config_js_text_that_is_not_json_is_refused() {
    let err = parse_config_js("var c = {not: json};").unwrap_err();
    assert!(err.to_string().starts_with("Metadata error: Unparseable config.js JSON: "));
    let err = config_from_parsed(Err("eof".to_string())).unwrap_err();
    assert_eq!(err.to_string(), "Metadata error: Unparseable config.js JSON: eof");
}

#[test]
fn json_numbers_in_the_model() {
    assert!(matches!(parse_json_text("7"), Ok(JsonValue::Number(JsonNumber::PosInt(7)))));
    assert!(matches!(parse_json_text("-5"), Ok(JsonValue::Number(JsonNumber::NegInt(-5)))));
    assert!(matches!(parse_json_text("1.5"), Ok(JsonValue::Float(_))));
    assert!(parse_json_text("{").is_err());
}

fn structure_error(text: &str) -> String {
    extract_metadata(json(text), &test_parsed_url()).unwrap_err().to_string()
}

#[test]
fn structure_errors_use_serde_messages() {
    let p = "Metadata error: Invalid config.js structure: ";
    assert_eq!(structure_error(r#"{"title": 5, "pageCount": 3}"#), format!("{}invalid type: integer `5`, expected a string", p));
    assert_eq!(structure_error(r#"{"pageCount": "12"}"#), format!("{}invalid type: string \"12\", expected usize", p));
    assert_eq!(structure_error(r#"{"pageCount": -1}"#), format!("{}invalid value: integer `-1`, expected usize", p));
    assert_eq!(structure_error(r#"{"pageCount": 1.5}"#), format!("{}invalid type: floating point `1.5`, expected usize", p));
    assert_eq!(structure_error(r#"{"pageCount": 2.0}"#), format!("{}invalid type: floating point `2.0`, expected usize", p));
    assert_eq!(structure_error(r#"{"pageCount": 3, "pages": [1]}"#), format!("{}invalid type: integer `1`, expected a string", p));
    assert_eq!(structure_error(r#"{"pageCount": 3, "pages": "a"}"#), format!("{}invalid type: string \"a\", expected a sequence", p));
    assert_eq!(structure_error(r#"{"docTitle": true, "pageCount": 3}"#), format!("{}invalid type: boolean `true`, expected a string", p));
    assert_eq!(structure_error(r#"{"date": {}, "pageCount": 3}"#), format!("{}invalid type: map, expected a string", p));
    assert_eq!(structure_error(r#"{"date": [], "pageCount": 3}"#), format!("{}invalid type: sequence, expected a string", p));
    assert_eq!(structure_error(r#"["T", 3]"#), format!("{}invalid length 2, expected struct RawConfig with 4 elements", p));
    assert_eq!(structure_error(r#"["T", 3, null, null, 1]"#), format!("{}invalid length 5, expected fewer elements in array", p));
    assert_eq!(structure_error(r#""x""#), format!("{}invalid type: string \"x\", expected struct RawConfig", p));
    assert_eq!(structure_error(r#"{"pageCount": "a\"b"}"#), format!("{}invalid type: string \"a\\\"b\", expected usize", p));
    assert_eq!(structure_error(r#"{"title": null, "docTitle": "x", "pageCount": 2}"#), format!("{}duplicate field `title`", p));
}

#[test]
fn array_config_with_four_fields_is_read() {
    let meta = extract_metadata(json(r#"["T", 3, ["a.webp"], null]"#), &test_parsed_url()).unwrap();
    assert_eq!(meta.title, "T");
    assert_eq!(meta.page_count, 3);
    assert_eq!(meta.page_filenames, vec!["a.webp".to_string()]);
}

fn serde_count_error(value: &str) -> String {
    let v = serde_json::from_str::<serde_json::Value>(value).unwrap();
    serde_json::from_value::<Option<usize>>(v).unwrap_err().to_string()
}

fn serde_str_error(value: &str) -> String {
    let v = serde_json::from_str::<serde_json::Value>(value).unwrap();
    serde_json::from_value::<Option<String>>(v).unwrap_err().to_string()
}

#[test]
fn field_messages_agree_with_serde() {
    let p = "Metadata error: Invalid config.js structure: ";
    for value in [r#""12""#, "-1", "1.5", "1e300", "true", "[]", "{}", r#""tab\tquote\"é""#] {
        let config = format!(r#"{{"pageCount": {}}}"#, value);
        assert_eq!(structure_error(&config), format!("{}{}", p, serde_count_error(value)));
    }
    for value in ["5", "-7", "0.25", "false", "[1]", "{}"] {
        let config = format!(r#"{{"title": {}, "pageCount": 1}}"#, value);
        assert_eq!(structure_error(&config), format!("{}{}", p, serde_str_error(value)));
    }
}

#[test]
fn name_list_messages_agree_with_serde() {
    let p = "Metadata error: Invalid config.js structure: ";
    for value in [r#""a""#, "[1]", r#"["a", 2.5]"#, "7", "{}"] {
        let v = serde_json::from_str::<serde_json::Value>(value).unwrap();
        let expected = serde_json::from_value::<Option<Vec<String>>>(v).unwrap_err().to_string();
        let config = format!(r#"{{"pageCount": 1, "pages": {}}}"#, value);
        assert_eq!(structure_error(&config), format!("{}{}", p, expected));
    }
}
