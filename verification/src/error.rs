//! Typed errors a library caller can match on, and their messages.
use vstd::prelude::*;
use vstd::string::StringExecFns;

verus! {

#[verifier::external_type_specification]
#[verifier::external_body]
pub struct ExIoError(std::io::Error);

/// Typed errors a library caller can match on.
#[derive(Debug)]
#[non_exhaustive]
pub enum ScanError {
    /// The input file could not be opened.
    Open {
        /// The path that failed to open.
        path: String,
        /// The underlying I/O error.
        source: std::io::Error,
    },
    /// The container format could not be determined.
    Format(String),
    /// The file has no default (decodable) audio track.
    NoTrack,
    /// No decoder is available for the track's codec.
    NoDecoder,
    /// The stream is missing required info (e.g. sample rate or channel layout).
    MissingStreamInfo(&'static str),
    /// Decoding failed, or the decode was incomplete under `strict`.
    Decode(String),
    /// The configuration was invalid.
    Config(String),
}

/// The text that leads the message of an [`ScanError::Open`] error; the I/O
/// error's own description follows it.
pub open spec fn open_message_prefix(path: Seq<char>) -> Seq<char> {
    "could not open "@ + path + ": "@
}

/// The message of every error but [`ScanError::Open`], whose message also
/// holds the operating system's description of the I/O error.
pub open spec fn message_of(e: ScanError) -> Seq<char> {
    match e {
        ScanError::Open { path, .. } => open_message_prefix(path@),
        ScanError::Format(m) => "could not determine audio format: "@ + m@,
        ScanError::NoTrack => "file has no decodable audio track"@,
        ScanError::NoDecoder => "no decoder available for this codec"@,
        ScanError::MissingStreamInfo(what) => "stream is missing its "@ + what@,
        ScanError::Decode(m) => "decode failed: "@ + m@,
        ScanError::Config(m) => "invalid config: "@ + m@,
    }
}

/// The description of an I/O error, as its `Display` gives it.
#[verifier::external_body]
fn io_error_text(e: &std::io::Error) -> String {
    e.to_string()
}

/// The message of an [`ScanError::Open`] error for `path`, given the
/// description `detail` of the I/O error that the operating system reports.
pub fn open_message(path: &str, detail: &str) -> (m: String)
    ensures
        m@ == open_message_prefix(path@) + detail@,
{
    let mut m = String::new();
    m.append("could not open ");
    m.append(path);
    m.append(": ");
    m.append(detail);
    m
}

impl ScanError {
    /// The human-readable message of this error. For [`ScanError::Open`] it is
    /// [`open_message`] of the path and the I/O error's description.
    pub fn message(&self) -> (m: String)
        ensures
            !(self is Open) ==> m@ == message_of(*self),
            self is Open ==> m@.len() >= message_of(*self).len() && m@.subrange(
                0,
                message_of(*self).len() as int,
            ) == message_of(*self),
    {
        let mut m = String::new();
        match self {
            ScanError::Open { path, source } => {
                let detail = io_error_text(source);
                m = open_message(path.as_str(), detail.as_str());
                assert(m@.subrange(0, open_message_prefix(path@).len() as int)
                    =~= open_message_prefix(path@));
            },
            ScanError::Format(d) => {
                m.append("could not determine audio format: ");
                m.append(d.as_str());
            },
            ScanError::NoTrack => {
                m.append("file has no decodable audio track");
            },
            ScanError::NoDecoder => {
                m.append("no decoder available for this codec");
            },
            ScanError::MissingStreamInfo(what) => {
                m.append("stream is missing its ");
                m.append(what);
            },
            ScanError::Decode(d) => {
                m.append("decode failed: ");
                m.append(d.as_str());
            },
            ScanError::Config(d) => {
                m.append("invalid config: ");
                m.append(d.as_str());
            },
        }
        m
    }
}

/// A [`ScanError::Decode`] whose detail reads `context: detail`.
pub fn decode_error(context: &str, detail: &str) -> (e: ScanError)
    ensures
        e matches ScanError::Decode(d) && d@ == context@ + ": "@ + detail@,
{
    let mut d = String::new();
    d.append(context);
    d.append(": ");
    d.append(detail);
    ScanError::Decode(d)
}

/// The stream's sample rate and channel count, which the header must give:
/// [`ScanError::MissingStreamInfo`] names the first one missing.
pub fn stream_layout(sample_rate: Option<u32>, channels: Option<u32>) -> (r: Result<(u32, u32), ScanError>)
    ensures
        match (sample_rate, channels) {
            (Some(rate), Some(ch)) => r == Ok::<(u32, u32), ScanError>((rate, ch)),
            (None, _) => r matches Err(ScanError::MissingStreamInfo(w)) && w@ == "sample rate"@,
            (Some(_), None) => r matches Err(ScanError::MissingStreamInfo(w)) && w@ == "channel layout"@,
        },
{
    match sample_rate {
        None => Err(ScanError::MissingStreamInfo("sample rate")),
        Some(rate) => match channels {
            None => Err(ScanError::MissingStreamInfo("channel layout")),
            Some(ch) => Ok((rate, ch)),
        },
    }
}

} // verus!
