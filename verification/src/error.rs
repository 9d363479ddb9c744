use vstd::prelude::*;

use crate::media::video::{supported_extension_names, supported_video_extensions};
use crate::text::{join, joined};
use crate::tools::{tool_names, Tool};

verus! {

/// What can go wrong in the library's checks.
#[derive(Debug, Clone, PartialEq, Eq)]
pub enum Error {
    /// A required environment variable is not set.
    MissingVariable { name: String },
    /// A required environment variable holds nothing but white space.
    EmptyVariable { name: String },
    /// No tool has this name.
    UnknownTool { name: String },
    /// The trim-silence tool was started without an input path.
    MissingInput,
    /// The input path has no extension.
    MissingVideoExtension,
    /// The input path's extension is not a supported video extension.
    UnsupportedExtension { extension: String },
    /// The input path does not exist.
    InputNotFound { path: String },
    /// The input path exists but is not a file.
    InputNotAFile { path: String },
}

/// How the trim-silence tool is used.
pub open spec fn usage_text() -> Seq<char> {
    "Missing required INPUT. Usage: make trim-silence INPUT=/path/to/video.mp4 [OUTPUT=/path/out.mp4] [SILENCE_THRESHOLD=-20] [MIN_SILENCE_MS=250]"@
}

impl Error {
    /// The message that reports this error to the user.
    pub open spec fn message_text(&self) -> Seq<char> {
        match self {
            Error::MissingVariable { name } => "Missing required environment variable "@ + name@,
            Error::EmptyVariable { name } => name@ + " cannot be empty"@,
            Error::UnknownTool { name } => "Unknown tool '"@ + name@ + "'. Available tools: "@
                + joined(tool_names(), ", "@),
            Error::MissingInput => usage_text(),
            Error::MissingVideoExtension => "Input file must have a video extension"@,
            Error::UnsupportedExtension { extension } => "Unsupported file extension '."@
                + extension@ + "'. Supported video extensions: "@ + joined(
                supported_video_extensions(),
                ", "@,
            ),
            Error::InputNotFound { path } => "Input file does not exist: "@ + path@,
            Error::InputNotAFile { path } => "Input path is not a file: "@ + path@,
        }
    }

    /// The message that reports this error to the user.
    pub fn message(&self) -> (m: String)
        ensures
            m@ == self.message_text(),
    {
        match self {
            Error::MissingVariable { name } => {
                let mut m = String::from_str("Missing required environment variable ");
                m.append(name.as_str());
                m
            },
            Error::EmptyVariable { name } => {
                let mut m = name.clone();
                m.append(" cannot be empty");
                m
            },
            Error::UnknownTool { name } => {
                let mut m = String::from_str("Unknown tool '");
                m.append(name.as_str());
                m.append("'. Available tools: ");
                let names = join(Tool::available_tools(), ", ");
                m.append(names.as_str());
                m
            },
            Error::MissingInput => String::from_str(
                "Missing required INPUT. Usage: make trim-silence INPUT=/path/to/video.mp4 [OUTPUT=/path/out.mp4] [SILENCE_THRESHOLD=-20] [MIN_SILENCE_MS=250]",
            ),
            Error::MissingVideoExtension => String::from_str(
                "Input file must have a video extension",
            ),
            Error::UnsupportedExtension { extension } => {
                let mut m = String::from_str("Unsupported file extension '.");
                m.append(extension.as_str());
                m.append("'. Supported video extensions: ");
                let names = join(supported_extension_names(), ", ");
                m.append(names.as_str());
                m
            },
            Error::InputNotFound { path } => {
                let mut m = String::from_str("Input file does not exist: ");
                m.append(path.as_str());
                m
            },
            Error::InputNotAFile { path } => {
                let mut m = String::from_str("Input path is not a file: ");
                m.append(path.as_str());
                m
            },
        }
    }
}

} // verus!
