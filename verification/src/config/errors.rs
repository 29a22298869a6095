use vstd::prelude::*;
use vstd::string::StringExecFns;

verus! {

/// Why a configuration could not be had.
#[derive(Debug, PartialEq, Eq, Clone)]
pub enum ConfigError {
    /// Nothing can be read or found at this path.
    InvalidPath(String),
    /// The configuration lacks this key.
    MissingKey(String),
    /// The port is no number that a port can be; this is the text that was
    /// found in its place.
    InvalidPort(String),
    /// A directory that the configuration names could not be made.
    CreateDirectoryError,
}

/// Why a configuration could not be had, as plain values.
pub enum ConfigErrorView {
    InvalidPath(Seq<char>),
    MissingKey(Seq<char>),
    InvalidPort(Seq<char>),
    CreateDirectoryError,
}

impl View for ConfigError {
    type V = ConfigErrorView;

    open spec fn view(&self) -> ConfigErrorView {
        match self {
            ConfigError::InvalidPath(path) => ConfigErrorView::InvalidPath(path@),
            ConfigError::MissingKey(key) => ConfigErrorView::MissingKey(key@),
            ConfigError::InvalidPort(text) => ConfigErrorView::InvalidPort(text@),
            ConfigError::CreateDirectoryError => ConfigErrorView::CreateDirectoryError,
        }
    }
}

impl ConfigErrorView {
    /// The error in words.
    pub open spec fn text(self) -> Seq<char> {
        match self {
            ConfigErrorView::InvalidPath(path) => "Invalid path: "@ + path,
            ConfigErrorView::MissingKey(key) => "Missing key: "@ + key,
            ConfigErrorView::InvalidPort(text) => "Invalid port: "@ + text,
            ConfigErrorView::CreateDirectoryError => "Can't create directory"@,
        }
    }
}

impl ConfigError {
    /// The error in words.
    pub fn to_text(&self) -> (text: String)
        ensures
            text@ == self@.text(),
    {
        match self {
            ConfigError::InvalidPath(path) => String::from_str("Invalid path: ").concat(
                path.as_str(),
            ),
            ConfigError::MissingKey(key) => String::from_str("Missing key: ").concat(key.as_str()),
            ConfigError::InvalidPort(found) => String::from_str("Invalid port: ").concat(
                found.as_str(),
            ),
            ConfigError::CreateDirectoryError => String::from_str("Can't create directory"),
        }
    }
}

} // verus!
