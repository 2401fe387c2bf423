use vstd::prelude::*;

verus! {

/// Every failure the library reports, each with a human-readable detail.
#[derive(Debug, PartialEq, Eq)]
pub enum NodeError {
    VersionNotFound(String),
    VersionNotInstalled(String),
    DownloadError(String),
    IoError(String),
    InvalidVersion(String),
    ExtractionError(String),
    ConfigError(String),
    AliasError(String),
    SystemError(String),
    ZipError(String),
}

} // verus!
