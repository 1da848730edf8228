use anyflipdl::commands::{
    check_open_path, file_not_found, greet, rename_needed, rename_plan, require_file_path, validate_url,
};

#[test]
fn validate_url_valid() {
    let result = validate_url("https://anyflip.com/u/b");
    assert_eq!(result.unwrap(), true);
}

#[test]
fn validate_url_invalid() {
    let result = validate_url("https://google.com");
    assert_eq!(result.unwrap(), false);
}

#[test]
fn validate_url_empty() {
    let result = validate_url("");
    assert!(result.is_err());
    assert!(result.unwrap_err().to_string().contains("empty"));
}

#[test]
fn greeting() {
    assert_eq!(greet("Ann"), "Hello, Ann! AnyflipDL is running.");
}

#[test]
fn file_paths_must_not_be_empty() {
    assert_eq!(
        require_file_path("").unwrap_err().to_string(),
        "File system error: File path cannot be empty"
    );
    assert!(require_file_path("/a").is_ok());
    assert_eq!(file_not_found("/a").to_string(), "File system error: File not found: /a");
}

#[test]
fn rename_keeps_the_extension() {
    let plan = rename_plan("New: Title?", Some("epub")).unwrap();
    assert_eq!(plan.new_title, "New Title");
    assert_eq!(plan.new_filename, "New Title.epub");
    let plan = rename_plan("x", None).unwrap();
    assert_eq!(plan.new_filename, "x.pdf");
    let plan = rename_plan("untitled", Some("pdf")).unwrap();
    assert_eq!(plan.new_filename, "untitled.pdf");
    assert_eq!(
        rename_plan("   ", Some("pdf")).unwrap_err().to_string(),
        "File system error: Title cannot be empty"
    );
}

#[test]
fn rename_conflicts() {
    assert_eq!(
        rename_needed(true, false, "a.pdf").unwrap_err().to_string(),
        "File system error: A file named 'a.pdf' already exists"
    );
    assert_eq!(rename_needed(true, true, "a.pdf").unwrap(), false);
    assert_eq!(rename_needed(false, false, "a.pdf").unwrap(), true);
}

#[test]
fn opening_needs_an_existing_path() {
    assert_eq!(
        check_open_path("", false).unwrap_err().to_string(),
        "Invalid URL: File path cannot be empty"
    );
    assert_eq!(
        check_open_path("/x.pdf", false).unwrap_err().to_string(),
        "File system error: File not found: /x.pdf"
    );
    assert!(check_open_path("/x.pdf", true).is_ok());
}
