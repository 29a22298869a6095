use vstd::prelude::*;
use vstd::string::StringExecFns;

verus! {

/// An input/output error of the standard library, carried through as it is.
#[verifier::external_type_specification]
#[verifier::external_body]
pub struct ExIoError(std::io::Error);

/// Why a piece could not be saved.
#[derive(Debug)]
pub enum DownloadManagerError {
    /// The file could not be written.
    IoError(std::io::Error),
    /// The piece holds no bytes.
    EmptyPieceError,
    /// The directory of this path could not be made.
    CreateDirectoryError(String),
}

impl From<std::io::Error> for DownloadManagerError {
    fn from(error: std::io::Error) -> (converted: Self) {
        DownloadManagerError::IoError(error)
    }
}

impl vstd::std_specs::convert::FromSpecImpl<std::io::Error> for DownloadManagerError {
    open spec fn obeys_from_spec() -> bool {
        true
    }

    open spec fn from_spec(error: std::io::Error) -> Self {
        DownloadManagerError::IoError(error)
    }
}

/// Puts an input/output error of the standard library into words, with the
/// error's own `Display`. Trusted, and nothing is claimed of the words: they
/// are the operating system's.
#[verifier::external_body]
fn io_error_text(error: &std::io::Error) -> String {
    error.to_string()
}

/// Whether `text` begins with `front`.
pub open spec fn begins_with(text: Seq<char>, front: Seq<char>) -> bool {
    text.len() >= front.len() && text.subrange(0, front.len() as int) == front
}

impl DownloadManagerError {
    /// The error in words. An input/output error is given in the words of
    /// the operating system, after `IoError: `.
    pub fn to_text(&self) -> (text: String)
        ensures
            match self {
                DownloadManagerError::IoError(_) => begins_with(text@, "IoError: "@),
                DownloadManagerError::EmptyPieceError => text@
                    == "Can't save piece with no data in disk"@,
                DownloadManagerError::CreateDirectoryError(path) => text@
                    == "Can't create directory: "@ + path@,
            },
    {
        match self {
            DownloadManagerError::IoError(error) => {
                let words = io_error_text(error);
                let text = String::from_str("IoError: ").concat(words.as_str());
                assert(text@.subrange(0, "IoError: "@.len() as int) =~= "IoError: "@);
                text
            },
            DownloadManagerError::EmptyPieceError => String::from_str(
                "Can't save piece with no data in disk",
            ),
            DownloadManagerError::CreateDirectoryError(path) => String::from_str(
                "Can't create directory: ",
            ).concat(path.as_str()),
        }
    }
}

} // verus!
