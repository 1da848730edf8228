use anyflipdl::error::AppError;

#[test]
fn every_error_kind_has_its_label() {
    let cases = vec![
        (AppError::InvalidUrl("a".to_string()), "Invalid URL: a"),
        (AppError::NetworkError("b".to_string()), "Network error: b"),
        (AppError::MetadataError("c".to_string()), "Metadata error: c"),
        (AppError::DownloadError("d".to_string()), "Download error: d"),
        (AppError::ConversionError("e".to_string()), "Conversion error: e"),
        (AppError::FileSystemError("f".to_string()), "File system error: f"),
        (AppError::PasswordRequired("g".to_string()), "Password required: g"),
        (AppError::SettingsError("h".to_string()), "Settings error: h"),
    ];
    for (e, text) in cases {
        assert_eq!(e.to_string(), text);
    }
}

#[test]
fn only_network_and_download_errors_are_retryable() {
    assert!(AppError::NetworkError(String::new()).is_retryable());
    assert!(AppError::DownloadError(String::new()).is_retryable());
    assert!(!AppError::ConversionError(String::new()).is_retryable());
    assert!(!AppError::PasswordRequired(String::new()).is_retryable());
    assert!(!AppError::InvalidUrl(String::new()).is_retryable());
}

#[test]
fn error_constructors_keep_the_message() {
    assert_eq!(AppError::download("x").to_string(), "Download error: x");
    assert_eq!(AppError::metadata("x").to_string(), "Metadata error: x");
    assert_eq!(AppError::settings("x").to_string(), "Settings error: x");
    assert_eq!(AppError::file_system("x").to_string(), "File system error: x");
    assert_eq!(AppError::conversion("x").to_string(), "Conversion error: x");
}
