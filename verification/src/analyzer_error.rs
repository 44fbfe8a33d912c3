//! What can go wrong in an analysis.

use vstd::prelude::*;

use crate::text::prefixed;

verus! {

/// Why an analysis failed. Paths and the errors of other parties are kept as
/// people read them.
#[derive(Debug)]
pub enum AnalyzerError {
    /// There is no `Cargo.toml` at this path.
    CargoTomlNotFound(String),
    /// The cargo command holds no word.
    EmptyCommand,
    /// Reading or writing failed.
    Io(String),
    /// Writing JSON failed.
    Json(String),
    /// The output of a build script could not be read: its path, and why.
    BuildScriptOutputUnreadable(String, String),
    /// `cargo metadata` failed.
    CargoMetadataFailed(String),
}

impl AnalyzerError {
    /// What is said of the error.
    pub open spec fn text(&self) -> Seq<char> {
        match self {
            AnalyzerError::CargoTomlNotFound(path) => "Cargo.toml not found at "@ + path@,
            AnalyzerError::EmptyCommand => "empty cargo command"@,
            AnalyzerError::Io(error) => "IO error: "@ + error@,
            AnalyzerError::Json(error) => "JSON error: "@ + error@,
            AnalyzerError::BuildScriptOutputUnreadable(path, error) => {
                "could not read build-script output at "@ + path@ + ": "@ + error@
            },
            AnalyzerError::CargoMetadataFailed(text) => "cargo metadata failed: "@ + text@,
        }
    }

    /// Says what went wrong.
    pub fn message(&self) -> (message: String)
        ensures
            message@ == self.text(),
    {
        match self {
            AnalyzerError::CargoTomlNotFound(path) => prefixed(
                "Cargo.toml not found at ",
                path.as_str(),
            ),
            AnalyzerError::EmptyCommand => "empty cargo command".to_owned(),
            AnalyzerError::Io(error) => prefixed("IO error: ", error.as_str()),
            AnalyzerError::Json(error) => prefixed("JSON error: ", error.as_str()),
            AnalyzerError::BuildScriptOutputUnreadable(path, error) => {
                let mut message: String = prefixed(
                    "could not read build-script output at ",
                    path.as_str(),
                );
                message.append(": ");
                message.append(error.as_str());
                message
            },
            AnalyzerError::CargoMetadataFailed(text) => prefixed(
                "cargo metadata failed: ",
                text.as_str(),
            ),
        }
    }
}

} // verus!
