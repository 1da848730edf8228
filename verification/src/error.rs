//! The application error type.

use vstd::prelude::*;

verus! {

/// Every failure the library reports, with a human-readable detail.
#[derive(Debug, Clone)]
pub enum AppError {
    InvalidUrl(String),
    NetworkError(String),
    MetadataError(String),
    DownloadError(String),
    ConversionError(String),
    FileSystemError(String),
    PasswordRequired(String),
    SettingsError(String),
}

/// The kind of an [`AppError`], for contracts.
pub ghost enum ErrorKind {
    InvalidUrl,
    NetworkError,
    MetadataError,
    DownloadError,
    ConversionError,
    FileSystemError,
    PasswordRequired,
    SettingsError,
}

impl AppError {
    pub open spec fn kind(&self) -> ErrorKind {
        match self {
            AppError::InvalidUrl(_) => ErrorKind::InvalidUrl,
            AppError::NetworkError(_) => ErrorKind::NetworkError,
            AppError::MetadataError(_) => ErrorKind::MetadataError,
            AppError::DownloadError(_) => ErrorKind::DownloadError,
            AppError::ConversionError(_) => ErrorKind::ConversionError,
            AppError::FileSystemError(_) => ErrorKind::FileSystemError,
            AppError::PasswordRequired(_) => ErrorKind::PasswordRequired,
            AppError::SettingsError(_) => ErrorKind::SettingsError,
        }
    }

    /// The error is of kind `k` and carries exactly `msg`.
    pub open spec fn is(&self, k: ErrorKind, msg: Seq<char>) -> bool {
        self.kind() == k && self.detail() == msg
    }

    /// The full message text, as [`AppError::to_string`] renders it.
    pub open spec fn message(&self) -> Seq<char> {
        self.label() + self.detail()
    }

    /// Network and download failures may succeed when retried.
    pub fn is_retryable(&self) -> (b: bool)
        ensures
            b == (self.kind() == ErrorKind::DownloadError || self.kind() == ErrorKind::NetworkError),
    {
        match self {
            AppError::DownloadError(_) | AppError::NetworkError(_) => true,
            _ => false,
        }
    }

    /// Builds an error of the given kind from a message text.
    pub fn download(msg: &str) -> (e: AppError)
        ensures
            e.is(ErrorKind::DownloadError, msg@),
    {
        AppError::DownloadError(msg.to_owned())
    }

    pub fn metadata(msg: &str) -> (e: AppError)
        ensures
            e.is(ErrorKind::MetadataError, msg@),
    {
        AppError::MetadataError(msg.to_owned())
    }

    pub fn settings(msg: &str) -> (e: AppError)
        ensures
            e.is(ErrorKind::SettingsError, msg@),
    {
        AppError::SettingsError(msg.to_owned())
    }

    pub fn file_system(msg: &str) -> (e: AppError)
        ensures
            e.is(ErrorKind::FileSystemError, msg@),
    {
        AppError::FileSystemError(msg.to_owned())
    }

    pub fn conversion(msg: &str) -> (e: AppError)
        ensures
            e.is(ErrorKind::ConversionError, msg@),
    {
        AppError::ConversionError(msg.to_owned())
    }

    /// The fixed text that introduces the message of each kind.
    pub open spec fn label(&self) -> Seq<char> {
        match self {
            AppError::InvalidUrl(_) => "Invalid URL: "@,
            AppError::NetworkError(_) => "Network error: "@,
            AppError::MetadataError(_) => "Metadata error: "@,
            AppError::DownloadError(_) => "Download error: "@,
            AppError::ConversionError(_) => "Conversion error: "@,
            AppError::FileSystemError(_) => "File system error: "@,
            AppError::PasswordRequired(_) => "Password required: "@,
            AppError::SettingsError(_) => "Settings error: "@,
        }
    }

    /// The detail carried by the error.
    pub open spec fn detail(&self) -> Seq<char> {
        match self {
            AppError::InvalidUrl(m) => m@,
            AppError::NetworkError(m) => m@,
            AppError::MetadataError(m) => m@,
            AppError::DownloadError(m) => m@,
            AppError::ConversionError(m) => m@,
            AppError::FileSystemError(m) => m@,
            AppError::PasswordRequired(m) => m@,
            AppError::SettingsError(m) => m@,
        }
    }

    /// The full message: the kind's label followed by the detail.
    pub fn to_string(&self) -> (s: String)
        ensures
            s@ == self.message(),
    {
        match self {
            AppError::InvalidUrl(m) => crate::text::concat("Invalid URL: ", m.as_str()),
            AppError::NetworkError(m) => crate::text::concat("Network error: ", m.as_str()),
            AppError::MetadataError(m) => crate::text::concat("Metadata error: ", m.as_str()),
            AppError::DownloadError(m) => crate::text::concat("Download error: ", m.as_str()),
            AppError::ConversionError(m) => crate::text::concat("Conversion error: ", m.as_str()),
            AppError::FileSystemError(m) => crate::text::concat("File system error: ", m.as_str()),
            AppError::PasswordRequired(m) => crate::text::concat("Password required: ", m.as_str()),
            AppError::SettingsError(m) => crate::text::concat("Settings error: ", m.as_str()),
        }
    }
}

} // verus!
