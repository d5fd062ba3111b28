//! What can go wrong while a video is processed.

use vstd::prelude::*;
use vstd::string::*;

use crate::grammar::ParseErrorView;
use crate::number::{decimal, decimal_digits};
use crate::parse::ParseError;
use crate::text::string_of;

verus! {

/// Results from processing a video.
pub type VideoResult<T> = Result<T, VideoProcError>;

/// Results from parsing video info while processing it.
pub type InfoResult<T> = Result<T, ParseError>;

/// The kinds of I/O failure that the driver tells apart.
#[derive(Clone, Copy, Debug, PartialEq, Eq, Structural)]
pub enum IoKind {
    /// The pipe was closed at its other end.
    BrokenPipe,
    /// The source ended before the buffer was full.
    UnexpectedEof,
    /// Any other failure.
    Other,
}

/// An I/O failure as the driver sees it: its kind and what it said.
#[derive(Debug, PartialEq)]
pub struct IoFailure {
    pub kind: IoKind,
    pub text: String,
}

impl Clone for IoFailure {
    fn clone(&self) -> (copy: Self)
        ensures
            copy == *self,
    {
        IoFailure { kind: self.kind, text: self.text.clone() }
    }
}

/// The model of an `IoFailure`.
pub struct IoFailureView {
    pub kind: IoKind,
    pub text: Seq<char>,
}

impl View for IoFailure {
    type V = IoFailureView;

    open spec fn view(&self) -> IoFailureView {
        IoFailureView { kind: self.kind, text: self.text@ }
    }
}

/// Errors from processing a video.
#[derive(Debug, PartialEq)]
pub enum VideoProcError {
    /// An I/O operation on the child failed.
    IO { msg: String, source: IoFailure },
    /// The stream finished: the output pipe closed before a full frame was read.
    FinishedNormally { source: IoFailure },
    /// A frame could not be read in full, for any other reason.
    ExactReadError { source: IoFailure },
    /// The output stream was not announced before the wait for it ended.
    Start(String),
    /// A pipe of the child was not there.
    MissingValue(String),
    /// The child exited with a positive code.
    ExitCode(i32),
    /// Anything else.
    Other(String),
}

impl Clone for VideoProcError {
    fn clone(&self) -> (copy: Self)
        ensures
            copy == *self,
    {
        match self {
            VideoProcError::IO { msg, source } => VideoProcError::IO {
                msg: msg.clone(),
                source: source.clone(),
            },
            VideoProcError::FinishedNormally { source } => VideoProcError::FinishedNormally {
                source: source.clone(),
            },
            VideoProcError::ExactReadError { source } => VideoProcError::ExactReadError {
                source: source.clone(),
            },
            VideoProcError::Start(why) => VideoProcError::Start(why.clone()),
            VideoProcError::MissingValue(what) => VideoProcError::MissingValue(what.clone()),
            VideoProcError::ExitCode(code) => VideoProcError::ExitCode(*code),
            VideoProcError::Other(what) => VideoProcError::Other(what.clone()),
        }
    }
}

/// The model of a `VideoProcError`.
pub enum VideoProcErrorView {
    IO { msg: Seq<char>, source: IoFailureView },
    FinishedNormally { source: IoFailureView },
    ExactReadError { source: IoFailureView },
    Start(Seq<char>),
    MissingValue(Seq<char>),
    ExitCode(i32),
    Other(Seq<char>),
}

impl View for VideoProcError {
    type V = VideoProcErrorView;

    open spec fn view(&self) -> VideoProcErrorView {
        match *self {
            VideoProcError::IO { msg, source } => VideoProcErrorView::IO {
                msg: msg@,
                source: source@,
            },
            VideoProcError::FinishedNormally { source } => VideoProcErrorView::FinishedNormally {
                source: source@,
            },
            VideoProcError::ExactReadError { source } => VideoProcErrorView::ExactReadError {
                source: source@,
            },
            VideoProcError::Start(why) => VideoProcErrorView::Start(why@),
            VideoProcError::MissingValue(what) => VideoProcErrorView::MissingValue(what@),
            VideoProcError::ExitCode(code) => VideoProcErrorView::ExitCode(code),
            VideoProcError::Other(what) => VideoProcErrorView::Other(what@),
        }
    }
}

/// The decimal digits of `n`, after a minus sign where it is negative.
pub open spec fn signed_decimal(n: int) -> Seq<char> {
    if n < 0 {
        seq!['-'] + decimal((-n) as nat)
    } else {
        decimal(n as nat)
    }
}

impl VideoProcErrorView {
    /// The error in words.
    pub open spec fn message(self) -> Seq<char> {
        match self {
            VideoProcErrorView::IO { msg, .. } => "video IO failed with "@ + msg,
            VideoProcErrorView::FinishedNormally { .. } => "video stream finished"@,
            VideoProcErrorView::ExactReadError { .. } =>
                "error reading full frame from video process"@,
            VideoProcErrorView::Start(why) => "couldn't parse stream info within deadline ("@ + why
                + ")"@,
            VideoProcErrorView::MissingValue(what) => "couldn't obtain "@ + what,
            VideoProcErrorView::ExitCode(code) => "video process exit code: "@ + signed_decimal(
                code as int,
            ),
            VideoProcErrorView::Other(what) => "other error: "@ + what,
        }
    }
}

impl VideoProcError {
    /// The error for a value that was not there.
    pub fn is_missing(msg: &str) -> (e: Self)
        ensures
            e@ == VideoProcErrorView::MissingValue(msg@),
    {
        VideoProcError::MissingValue(msg.to_owned())
    }

    /// The error for an I/O failure, with what was being done.
    pub fn explain_io(msg: &str, e: IoFailure) -> (error: Self)
        ensures
            error@ == (VideoProcErrorView::IO { msg: msg@, source: e@ }),
    {
        VideoProcError::IO { msg: msg.to_owned(), source: e }
    }

    /// The error in words.
    pub fn message(&self) -> (text: String)
        ensures
            text@ == self@.message(),
    {
        match self {
            VideoProcError::IO { msg, .. } => "video IO failed with ".to_owned().concat(
                msg.as_str(),
            ),
            VideoProcError::FinishedNormally { .. } => "video stream finished".to_owned(),
            VideoProcError::ExactReadError { .. } => {
                "error reading full frame from video process".to_owned()
            },
            VideoProcError::Start(why) => "couldn't parse stream info within deadline (".to_owned().concat(
                why.as_str(),
            ).concat(")"),
            VideoProcError::MissingValue(what) => "couldn't obtain ".to_owned().concat(
                what.as_str(),
            ),
            VideoProcError::ExitCode(code) => {
                let code: i32 = *code;
                let digits = if code < 0 {
                    let magnitude: u64 = (-(code as i64)) as u64;
                    proof {
                        reveal_strlit("-");
                        assert("-"@ =~= seq!['-']);
                    }
                    "-".to_owned().concat(string_of(decimal_digits(magnitude).as_slice()).as_str())
                } else {
                    string_of(decimal_digits(code as u64).as_slice())
                };
                "video process exit code: ".to_owned().concat(digits.as_str())
            },
            VideoProcError::Other(what) => "other error: ".to_owned().concat(what.as_str()),
        }
    }
}

/// Errors from driving a video process: those of the process, and the lines
/// of its diagnostics that break the grammar.
#[derive(Debug, PartialEq)]
pub enum FFVideoError {
    Processing(VideoProcError),
    Parsing(ParseError),
}

impl Clone for FFVideoError {
    fn clone(&self) -> (copy: Self)
        ensures
            copy == *self,
    {
        match self {
            FFVideoError::Processing(e) => FFVideoError::Processing(e.clone()),
            FFVideoError::Parsing(e) => FFVideoError::Parsing(e.clone()),
        }
    }
}

/// The model of an `FFVideoError`.
pub enum FFVideoErrorView {
    Processing(VideoProcErrorView),
    Parsing(ParseErrorView),
}

impl View for FFVideoError {
    type V = FFVideoErrorView;

    open spec fn view(&self) -> FFVideoErrorView {
        match *self {
            FFVideoError::Processing(e) => FFVideoErrorView::Processing(e@),
            FFVideoError::Parsing(e) => FFVideoErrorView::Parsing(e@),
        }
    }
}

impl FFVideoErrorView {
    /// The error in words.
    pub open spec fn message(self) -> Seq<char> {
        match self {
            FFVideoErrorView::Processing(e) => "video processing error: "@ + e.message(),
            FFVideoErrorView::Parsing(e) => "parsing error: "@ + e.message(),
        }
    }
}

impl FFVideoError {
    /// The error in words.
    pub fn message(&self) -> (text: String)
        ensures
            text@ == self@.message(),
    {
        match self {
            FFVideoError::Processing(e) => "video processing error: ".to_owned().concat(
                e.message().as_str(),
            ),
            FFVideoError::Parsing(e) => "parsing error: ".to_owned().concat(e.message().as_str()),
        }
    }
}

impl From<VideoProcError> for FFVideoError {
    fn from(e: VideoProcError) -> (error: Self) {
        FFVideoError::Processing(e)
    }
}

impl vstd::std_specs::convert::FromSpecImpl<VideoProcError> for FFVideoError {
    open spec fn obeys_from_spec() -> bool {
        true
    }

    open spec fn from_spec(e: VideoProcError) -> Self {
        FFVideoError::Processing(e)
    }
}

impl From<ParseError> for FFVideoError {
    fn from(e: ParseError) -> (error: Self) {
        FFVideoError::Parsing(e)
    }
}

impl vstd::std_specs::convert::FromSpecImpl<ParseError> for FFVideoError {
    open spec fn obeys_from_spec() -> bool {
        true
    }

    open spec fn from_spec(e: ParseError) -> Self {
        FFVideoError::Parsing(e)
    }
}

} // verus!
