//! The grammar of the child's diagnostics: the model of what the parser
//! holds and reports, and what each line means in it.

use vstd::prelude::*;

use crate::number::{decimal, is_float, unsigned, IntError};
use crate::text::{
    after, before, ends_with, is_space, lemma_first_index, lemma_trim_start_shorter, occurs, split,
    starts_with, trim, trim_end_matches, trim_start, without_prefix, without_suffix,
};

verus! {

/// The model of a `Stream`.
pub struct StreamView {
    pub num: u32,
    pub width: u32,
    pub height: u32,
    pub fps: Option<Seq<char>>,
}

/// The model of a `StreamInfo`.
pub enum StreamInfoView {
    Input { from: Seq<char>, stream: StreamView },
    Output { to: Seq<char>, stream: StreamView },
}

/// The model of a `FrameUpdate`.
pub struct FrameUpdateView {
    pub frame: u64,
    pub fps: Option<Seq<char>>,
    pub dup: Option<u32>,
    pub drop: Option<u32>,
}

/// The model of a `VideoInfo`.
pub enum VideoInfoView {
    Stream(StreamInfoView),
    Frame(FrameUpdateView),
    Codec(Seq<char>),
}

/// The model of a `ParseContext`.
pub enum ContextView {
    Stateless,
    Output(u32, Seq<char>),
    Input(u32, Seq<char>),
}

/// The model of a `ParseError`.
pub struct ParseErrorView {
    pub context: ContextView,
    pub line: Seq<char>,
    pub reason: Seq<char>,
}

impl ParseErrorView {
    /// The error in words: the reason, and the line that it is about.
    pub open spec fn message(self) -> Seq<char> {
        self.reason + ": "@ + self.line
    }
}

/// What a line yields: an event, nothing, or an error.
pub type Outcome = Result<Option<VideoInfoView>, ParseErrorView>;

impl StreamView {
    /// A stream has a positive width and height, and its rate, where it has
    /// one, is a floating-point literal.
    pub open spec fn wf(&self) -> bool {
        &&& self.width > 0
        &&& self.height > 0
        &&& self.fps matches Some(rate) ==> is_float(rate)
    }
}

impl StreamInfoView {
    /// The stream that the announcement is about.
    pub open spec fn stream(self) -> StreamView {
        match self {
            StreamInfoView::Input { stream, .. } => stream,
            StreamInfoView::Output { stream, .. } => stream,
        }
    }
}

/// The parser after a line, and what the line yielded.
pub struct Step {
    pub context: ContextView,
    pub result: Outcome,
}

impl ContextView {
    /// The index of the block; 0 outside any block.
    pub open spec fn num(self) -> u32 {
        match self {
            ContextView::Stateless => 0,
            ContextView::Output(num, _) => num,
            ContextView::Input(num, _) => num,
        }
    }

    /// The announcement of `stream` on the side of this block.
    pub open spec fn announce(self, stream: StreamView) -> StreamInfoView
        recommends
            !(self is Stateless),
    {
        match self {
            ContextView::Input(_, from) => StreamInfoView::Input { from, stream },
            ContextView::Output(_, to) => StreamInfoView::Output { to, stream },
            ContextView::Stateless => StreamInfoView::Output { to: Seq::empty(), stream },
        }
    }
}

/// The line is refused for `reason`; the parser stays where it was.
pub open spec fn refused(context: ContextView, line: Seq<char>, reason: Seq<char>) -> Step {
    Step { context, result: Err(ParseErrorView { context, line, reason }) }
}

/// The line says nothing, and leaves the parser in `context`.
pub open spec fn silent(context: ContextView) -> Step {
    Step { context, result: Ok(None) }
}

/// How a number that failed to parse is described in a reason.
pub open spec fn int_error_text(kind: IntError) -> Seq<char> {
    "ParseIntError { kind: "@ + match kind {
        IntError::Empty => "Empty"@,
        IntError::InvalidDigit => "InvalidDigit"@,
        IntError::PosOverflow => "PosOverflow"@,
    } + " }"@
}

/// The words that open the header of an input or of an output.
pub open spec fn header_tag(is_input: bool) -> Seq<char> {
    if is_input {
        "Input #"@
    } else {
        "Output #"@
    }
}

/// The words that open the quoted endpoint of an input or of an output.
pub open spec fn endpoint_quote(is_input: bool) -> Seq<char> {
    if is_input {
        "from '"@
    } else {
        "to '"@
    }
}

/// A line that opens the block of an input or an output.
pub open spec fn is_header(line: Seq<char>) -> bool {
    starts_with(line, header_tag(true)) || starts_with(line, header_tag(false))
}

/// A bracketed notice of a codec or filter.
pub open spec fn is_codec(line: Seq<char>) -> bool {
    line.len() > 0 && line[0] == '[' && occurs(line, ']')
}

/// A line without leading white space: it begins a section of its own.
pub open spec fn is_top_level(line: Seq<char>) -> bool {
    line.len() == 0 || !is_space(line[0])
}

/// A line that reports progress.
pub open spec fn is_progress(line: Seq<char>) -> bool {
    starts_with(trim(line), "frame="@)
}

/// A line that describes a stream of the block.
pub open spec fn is_stream(line: Seq<char>) -> bool {
    starts_with(trim(line), "Stream #"@)
}

/// What a header line does: it opens the block of the input or output whose
/// index follows `#`, with the endpoint named in the last comma-separated
/// piece, unquoted.
pub open spec fn header_step(context: ContextView, line: Seq<char>) -> Step
    recommends
        is_header(line),
{
    let is_input = starts_with(line, "Input #"@);
    let pieces = split(without_prefix(line, header_tag(is_input)), ',');
    match unsigned(trim(pieces[0]), u32::MAX as nat) {
        Err(kind) => refused(context, line, "# not a number but "@ + int_error_text(kind)),
        Ok(num) => if pieces.len() < 2 {
            refused(context, line, "no last stream element (from or to)"@)
        } else {
            let named = without_prefix(trim(pieces.last()), endpoint_quote(is_input));
            let endpoint = without_suffix(named, "':"@);
            Step {
                context: if is_input {
                    ContextView::Input(num as u32, endpoint)
                } else {
                    ContextView::Output(num as u32, endpoint)
                },
                result: Ok(None),
            }
        },
    }
}

/// The comma-separated fields of a video stream: those of the first piece
/// that reads `Video` and of every piece after it. `None` where no piece
/// reads `Video`.
pub open spec fn video_fields(pieces: Seq<Seq<char>>) -> Option<Seq<Seq<char>>>
    decreases pieces.len(),
{
    if pieces.len() == 0 {
        None
    } else {
        match video_fields(pieces.drop_last()) {
            Some(fields) => Some(fields + split(pieces.last(), ',')),
            None => if trim(pieces.last()) == "Video"@ {
                Some(split(pieces.last(), ','))
            } else {
                None
            },
        }
    }
}

/// The rate that a field names: what stands before its closing ` fps`.
pub open spec fn rate_of(field: Seq<char>) -> Option<Seq<char>> {
    let word = trim(field);
    if ends_with(word, " fps"@) {
        Some(trim_end_matches(word, " fps"@))
    } else {
        None
    }
}

/// The size that a word names: a positive width, an `x`, and a positive
/// height that ends at the first space or the end of the word.
pub open spec fn size_in(word: Seq<char>) -> Option<(u32, u32)> {
    if !occurs(word, 'x') {
        None
    } else {
        match (
            unsigned(before(word, 'x'), u32::MAX as nat),
            unsigned(before(after(word, 'x'), ' '), u32::MAX as nat),
        ) {
            (Ok(width), Ok(height)) => if width > 0 && height > 0 {
                Some((width as u32, height as u32))
            } else {
                None
            },
            _ => None,
        }
    }
}

/// The size that a field names, unless the field names a rate.
pub open spec fn dims_of(field: Seq<char>) -> Option<(u32, u32)> {
    let word = trim(field);
    if ends_with(word, " fps"@) {
        None
    } else {
        size_in(word)
    }
}

/// The size named by the last field that names one.
pub open spec fn last_dims(fields: Seq<Seq<char>>) -> Option<(u32, u32)>
    decreases fields.len(),
{
    if fields.len() == 0 {
        None
    } else {
        match dims_of(fields.last()) {
            Some(dims) => Some(dims),
            None => last_dims(fields.drop_last()),
        }
    }
}

/// The rate named by the last field that names one.
pub open spec fn last_rate(fields: Seq<Seq<char>>) -> Option<Seq<char>>
    decreases fields.len(),
{
    if fields.len() == 0 {
        None
    } else {
        match rate_of(fields.last()) {
            Some(rate) => Some(rate),
            None => last_rate(fields.drop_last()),
        }
    }
}

/// Whether the rate that a field names, if it names one, is a
/// floating-point literal.
pub open spec fn rate_is_valid(field: Seq<char>) -> bool {
    rate_of(field) matches Some(rate) ==> is_float(rate)
}

/// Whether every rate that a field names is a floating-point literal.
pub open spec fn rates_valid(fields: Seq<Seq<char>>) -> bool {
    forall|i: int| 0 <= i < fields.len() ==> rate_is_valid(#[trigger] fields[i])
}

/// The colon-separated pieces of a stream line after `Stream #`: the index
/// first.
pub open spec fn stream_pieces(line: Seq<char>) -> Seq<Seq<char>> {
    split(without_prefix(trim(line), "Stream #"@), ':')
}

/// What a stream line does inside a block: it checks the index against the
/// block's, and for a video stream announces its size and rate and closes
/// the block.
pub open spec fn stream_step(context: ContextView, line: Seq<char>) -> Step
    recommends
        !(context is Stateless),
        is_stream(line),
{
    let pieces = stream_pieces(line);
    match unsigned(pieces[0], u32::MAX as nat) {
        Err(kind) => refused(context, line, "Stream # not a number "@ + int_error_text(kind)),
        Ok(num) => if num != context.num() {
            refused(context, line, "Stream "@ + decimal(num) + " didn't match Output"@)
        } else {
            match video_fields(pieces.skip(1)) {
                None => silent(context),
                Some(fields) => if !rates_valid(fields) {
                    refused(context, line, "fps not a number"@)
                } else {
                    match last_dims(fields) {
                        None => refused(
                            context,
                            line,
                            "didn't find <width>x<height> in video stream"@,
                        ),
                        Some((width, height)) => Step {
                            context: ContextView::Stateless,
                            result: Ok(
                                Some(
                                    VideoInfoView::Stream(
                                        context.announce(
                                            StreamView {
                                                num: num as u32,
                                                width,
                                                height,
                                                fps: last_rate(fields),
                                            },
                                        ),
                                    ),
                                ),
                            ),
                        },
                    }
                },
            }
        },
    }
}

/// The optional counters of a progress line.
pub struct Tally {
    pub fps: Option<Seq<char>>,
    pub dup: Option<u32>,
    pub drop: Option<u32>,
}

impl Tally {
    /// No counter read yet.
    pub open spec fn none() -> Tally {
        Tally { fps: None, dup: None, drop: None }
    }
}

/// A counter read as a `u32`, absent where it is none.
pub open spec fn count_of(value: Seq<char>) -> Option<u32> {
    match unsigned(value, u32::MAX as nat) {
        Ok(n) => Some(n as u32),
        Err(_) => None,
    }
}

/// `tally` after the pair `key=value`: `fps`, `dup` and `drop` take the
/// value, or become absent where it is malformed; other keys change nothing.
pub open spec fn assign(tally: Tally, key: Seq<char>, value: Seq<char>) -> Tally {
    if key == "fps"@ {
        Tally {
            fps: if is_float(value) {
                Some(value)
            } else {
                None
            },
            ..tally
        }
    } else if key == "dup"@ {
        Tally { dup: count_of(value), ..tally }
    } else if key == "drop"@ {
        Tally { drop: count_of(value), ..tally }
    } else {
        tally
    }
}

/// The counters of `rest`, read pair by pair onto `tally`. A key is what
/// stands before an `=`; its value is what follows, after white space, up to
/// the next space. A value that no space follows is passed over.
pub open spec fn tally_of(rest: Seq<char>, tally: Tally) -> Tally
    decreases rest.len(),
{
    if !occurs(rest, '=') {
        tally
    } else {
        let tail = after(rest, '=');
        let value_on = trim_start(tail);
        proof {
            lemma_first_index(rest, '=');
            lemma_trim_start_shorter(tail);
            lemma_first_index(value_on, ' ');
        }
        if occurs(value_on, ' ') {
            tally_of(after(value_on, ' '), assign(tally, before(rest, '='), before(value_on, ' ')))
        } else {
            tally_of(tail, tally)
        }
    }
}

/// The frame counter of a progress line as it is written: what follows
/// `frame=`, up to the first space after it.
pub open spec fn frame_token(line: Seq<char>) -> Seq<char> {
    trim(before(trim(without_prefix(trim(line), "frame="@)), ' '))
}

/// What a progress line does: it reports the frame counter, which must be a
/// number, and the counters that follow it, as far as they can be read.
pub open spec fn progress_step(context: ContextView, line: Seq<char>) -> Step
    recommends
        is_progress(line),
{
    let report = trim(without_prefix(trim(line), "frame="@));
    let rest = if occurs(report, ' ') {
        after(report, ' ')
    } else {
        Seq::empty()
    };
    match unsigned(frame_token(line), u64::MAX as nat) {
        Err(_) => refused(context, line, "frame is no number"@),
        Ok(frame) => {
            let tally = tally_of(rest, Tally::none());
            Step {
                context,
                result: Ok(
                    Some(
                        VideoInfoView::Frame(
                            FrameUpdateView {
                                frame: frame as u64,
                                fps: tally.fps,
                                dup: tally.dup,
                                drop: tally.drop,
                            },
                        ),
                    ),
                ),
            }
        },
    }
}

/// What one line of diagnostics means in `context`.
pub open spec fn parse_line(context: ContextView, line: Seq<char>) -> Step {
    if is_header(line) {
        header_step(context, line)
    } else if is_codec(line) {
        Step { context, result: Ok(Some(VideoInfoView::Codec(line))) }
    } else if is_top_level(line) && !is_progress(line) {
        silent(ContextView::Stateless)
    } else if !(context is Stateless) && is_stream(line) {
        stream_step(context, line)
    } else if is_progress(line) {
        progress_step(context, line)
    } else {
        silent(context)
    }
}

/// An event or an error: what a line yields, unless it yields nothing.
pub type Report = Result<VideoInfoView, ParseErrorView>;

/// What an outcome adds to the reports: itself, unless it is nothing.
pub open spec fn reported(result: Outcome) -> Seq<Report> {
    match result {
        Ok(Some(info)) => seq![Ok(info)],
        Ok(None) => Seq::empty(),
        Err(e) => seq![Err(e)],
    }
}

/// The parser after a run of lines, and what the lines reported.
pub struct Run {
    pub context: ContextView,
    pub reports: Seq<Report>,
}

/// Reads `lines` in order, starting in `context`. An error is reported like
/// an event and stops nothing.
pub open spec fn parse_lines(context: ContextView, lines: Seq<Seq<char>>) -> Run
    decreases lines.len(),
{
    if lines.len() == 0 {
        Run { context, reports: Seq::empty() }
    } else {
        let before = parse_lines(context, lines.drop_last());
        let step = parse_line(before.context, lines.last());
        Run { context: step.context, reports: before.reports + reported(step.result) }
    }
}

} // verus!
