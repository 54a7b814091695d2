//! What can go wrong in a conversion.

use crate::decimal::decimal;
use crate::decimal::push_decimal;
use vstd::prelude::*;

verus! {

/// Every failure ends the whole conversion; none is retried.
#[derive(Debug, Clone, PartialEq, Eq)]
pub enum Error {
    /// The encoder could not be started.
    FfmpegNotFound,
    /// The prober could not be started.
    FfprobeNotFound,
    /// There is no file at the input path.
    InputNotFound(String),
    /// The prober failed, or left out what is needed.
    ProbeFailed(String),
    /// The encoder ran and failed.
    EncodeFailed(String),
    /// No quality within the bounds fits the budget; holds the attempts made.
    TargetUnreachable(u32),
    /// The options or the input cannot be worked with.
    InvalidInput(String),
    /// Reading, deleting or renaming a file failed.
    Io(String),
    /// The prober's output is not the JSON that was asked for.
    Json(String),
}

impl Error {
    /// The text that a person is shown.
    pub open spec fn message_spec(&self) -> Seq<char> {
        match self {
            Error::FfmpegNotFound => "ffmpeg not found in PATH — install it from https://ffmpeg.org"@,
            Error::FfprobeNotFound => "ffprobe not found in PATH — install it from https://ffmpeg.org"@,
            Error::InputNotFound(path) => "input file does not exist: "@ + path@,
            Error::ProbeFailed(reason) => "ffprobe failed: "@ + reason@,
            Error::EncodeFailed(reason) => "ffmpeg encoding failed: "@ + reason@,
            Error::TargetUnreachable(attempts) => "could not reach target size after "@ + decimal(
                *attempts as nat,
            ) + " attempts — video may be too long or complex"@,
            Error::InvalidInput(reason) => "invalid input: "@ + reason@,
            Error::Io(reason) => reason@,
            Error::Json(reason) => reason@,
        }
    }

    /// The text that a person is shown.
    pub fn message(&self) -> (text: String)
        ensures
            text@ == self.message_spec(),
    {
        match self {
            Error::FfmpegNotFound => String::from_str(
                "ffmpeg not found in PATH — install it from https://ffmpeg.org",
            ),
            Error::FfprobeNotFound => String::from_str(
                "ffprobe not found in PATH — install it from https://ffmpeg.org",
            ),
            Error::InputNotFound(path) => {
                let mut text = String::from_str("input file does not exist: ");
                text.append(path.as_str());
                text
            },
            Error::ProbeFailed(reason) => {
                let mut text = String::from_str("ffprobe failed: ");
                text.append(reason.as_str());
                text
            },
            Error::EncodeFailed(reason) => {
                let mut text = String::from_str("ffmpeg encoding failed: ");
                text.append(reason.as_str());
                text
            },
            Error::TargetUnreachable(attempts) => {
                let mut text = String::from_str("could not reach target size after ");
                push_decimal(&mut text, *attempts as u128);
                text.append(" attempts — video may be too long or complex");
                text
            },
            Error::InvalidInput(reason) => {
                let mut text = String::from_str("invalid input: ");
                text.append(reason.as_str());
                text
            },
            Error::Io(reason) => String::from_str(reason.as_str()),
            Error::Json(reason) => String::from_str(reason.as_str()),
        }
    }
}

} // verus!
