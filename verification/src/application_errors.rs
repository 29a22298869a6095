use crate::config::errors::ConfigError;
use crate::metainfo::MetainfoParserError;
use crate::piece_manager::model::DownloadStatus;
use crate::tracker::types::TrackerError;
use vstd::prelude::*;
use vstd::string::StringExecFns;

verus! {

/// The error type that the application returns.
#[derive(Debug)]
pub enum ApplicationError {
    /// The configuration could not be had.
    ConfigError(ConfigError),
    /// The torrent descriptor could not be had.
    MetainfoError(MetainfoParserError),
    /// The tracker gave no peers.
    TrackerError(TrackerError),
}

impl From<ConfigError> for ApplicationError {
    fn from(error: ConfigError) -> (converted: Self) {
        ApplicationError::ConfigError(error)
    }
}

impl vstd::std_specs::convert::FromSpecImpl<ConfigError> for ApplicationError {
    open spec fn obeys_from_spec() -> bool {
        true
    }

    open spec fn from_spec(error: ConfigError) -> Self {
        ApplicationError::ConfigError(error)
    }
}

impl From<MetainfoParserError> for ApplicationError {
    fn from(error: MetainfoParserError) -> (converted: Self) {
        ApplicationError::MetainfoError(error)
    }
}

impl vstd::std_specs::convert::FromSpecImpl<MetainfoParserError> for ApplicationError {
    open spec fn obeys_from_spec() -> bool {
        true
    }

    open spec fn from_spec(error: MetainfoParserError) -> Self {
        ApplicationError::MetainfoError(error)
    }
}

impl From<TrackerError> for ApplicationError {
    fn from(error: TrackerError) -> (converted: Self) {
        ApplicationError::TrackerError(error)
    }
}

impl vstd::std_specs::convert::FromSpecImpl<TrackerError> for ApplicationError {
    open spec fn obeys_from_spec() -> bool {
        true
    }

    open spec fn from_spec(error: TrackerError) -> Self {
        ApplicationError::TrackerError(error)
    }
}

impl ApplicationError {
    /// The error in words: which part of the application failed, a dash,
    /// and that part's own words.
    pub open spec fn text(self) -> Seq<char> {
        match self {
            ApplicationError::ConfigError(error) => "Config Error - "@ + error@.text(),
            ApplicationError::MetainfoError(error) => "Metainfo Error - "@ + error.text(),
            ApplicationError::TrackerError(error) => "Tracker Error - "@ + error.text(),
        }
    }

    /// The error in words.
    pub fn to_text(&self) -> (text: String)
        ensures
            text@ == self.text(),
    {
        match self {
            ApplicationError::ConfigError(error) => String::from_str("Config Error - ").concat(
                error.to_text().as_str(),
            ),
            ApplicationError::MetainfoError(error) => String::from_str(
                "Metainfo Error - ",
            ).concat(error.to_text().as_str()),
            ApplicationError::TrackerError(error) => String::from_str("Tracker Error - ").concat(
                error.to_text().as_str(),
            ),
        }
    }
}

/// The code a process ends with when the download ended as `outcome` says:
/// 0 when every piece is complete; 1 on a configuration or descriptor error;
/// 2 when the tracker gave no peers; 3 when pieces remain and no peer is
/// left to deliver them.
pub open spec fn spec_exit_code(outcome: Result<DownloadStatus, ApplicationError>) -> i32 {
    match outcome {
        Ok(DownloadStatus::AllDone) => 0,
        Ok(_) => 3,
        Err(ApplicationError::ConfigError(_)) => 1,
        Err(ApplicationError::MetainfoError(_)) => 1,
        Err(ApplicationError::TrackerError(_)) => 2,
    }
}

/// The code a process ends with when the download ended as `outcome` says.
pub fn exit_code(outcome: &Result<DownloadStatus, ApplicationError>) -> (code: i32)
    ensures
        code == spec_exit_code(*outcome),
{
    match outcome {
        Ok(DownloadStatus::AllDone) => 0,
        Ok(_) => 3,
        Err(ApplicationError::ConfigError(_)) => 1,
        Err(ApplicationError::MetainfoError(_)) => 1,
        Err(ApplicationError::TrackerError(_)) => 2,
    }
}

} // verus!
