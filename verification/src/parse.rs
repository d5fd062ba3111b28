//! The diagnostics parser: it reads the child's diagnostic stream line by
//! line, and reports what each line means in the block that the lines
//! before it opened.

use vstd::prelude::*;
use vstd::slice::*;
use vstd::string::*;

use crate::grammar::{
    dims_of, header_step, header_tag, int_error_text, is_header, last_dims, last_rate, parse_line,
    parse_lines, progress_step, rate_is_valid, rate_of, rates_valid, size_in, stream_step, tally_of, video_fields,
    ContextView, FrameUpdateView, Outcome, ParseErrorView, Report, StreamInfoView, StreamView,
    Tally, VideoInfoView,
};
use crate::laws::lemma_announced_stream_is_well_formed;
use crate::number::{decimal_digits, float_literal, is_float, parse_u32, parse_u64, IntError};
use crate::text::{
    begins_with, chars_of, find, finishes_with, lemma_first_index, lemma_split_first,
    lemma_trim_start_shorter, same, space, split, starts_with, string_of, strip_end,
    strip_end_repeated, strip_start, trim, trimmed, trimmed_start, without_prefix,
};

verus! {

/// Describes one video stream.
#[derive(Debug, PartialEq)]
pub struct Stream {
    /// Index of the file that the stream belongs to.
    pub num: u32,
    /// Width in pixels.
    pub width: u32,
    /// Height in pixels.
    pub height: u32,
    /// Frames per second, as the floating-point literal that was reported.
    pub fps: Option<String>,
}

/// Describes an input or output video stream.
#[derive(Debug, PartialEq)]
pub enum StreamInfo {
    Input { from: String, stream: Stream },
    Output { to: String, stream: Stream },
}

/// Describes a stream's progress.
#[derive(Debug, PartialEq)]
pub struct FrameUpdate {
    /// Number of frames processed so far.
    pub frame: u64,
    /// Current rate, as the floating-point literal that was reported.
    pub fps: Option<String>,
    /// Number of duplicated frames.
    pub dup: Option<u32>,
    /// Number of dropped frames.
    pub drop: Option<u32>,
}

/// What a line of diagnostics reports.
#[derive(Debug, PartialEq)]
pub enum VideoInfo {
    Stream(StreamInfo),
    Frame(FrameUpdate),
    Codec(String),
}

/// The block that the parser is in: none, or that of an input or output
/// with its index and its endpoint.
#[derive(Debug, PartialEq)]
pub enum ParseContext {
    Stateless,
    Output(u32, String),
    Input(u32, String),
}

/// A line that breaks the grammar, with the block it was read in.
#[derive(Debug, PartialEq)]
pub struct ParseError {
    pub context: ParseContext,
    pub line: String,
    pub reason: String,
}

/// Parses the diagnostics of the child into `VideoInfo`, line by line.
#[derive(Debug)]
pub struct InfoParser {
    mode: ParseContext,
}

/// A copy of an optional text.
fn copy_of(text: &Option<String>) -> (copy: Option<String>)
    ensures
        copy == *text,
{
    match text {
        Some(t) => Some(t.clone()),
        None => None,
    }
}

impl Clone for Stream {
    fn clone(&self) -> (copy: Self)
        ensures
            copy == *self,
    {
        Stream { num: self.num, width: self.width, height: self.height, fps: copy_of(&self.fps) }
    }
}

impl Clone for StreamInfo {
    fn clone(&self) -> (copy: Self)
        ensures
            copy == *self,
    {
        match self {
            StreamInfo::Input { from, stream } => StreamInfo::Input {
                from: from.clone(),
                stream: stream.clone(),
            },
            StreamInfo::Output { to, stream } => StreamInfo::Output {
                to: to.clone(),
                stream: stream.clone(),
            },
        }
    }
}

impl Clone for FrameUpdate {
    fn clone(&self) -> (copy: Self)
        ensures
            copy == *self,
    {
        FrameUpdate { frame: self.frame, fps: copy_of(&self.fps), dup: self.dup, drop: self.drop }
    }
}

impl Clone for VideoInfo {
    fn clone(&self) -> (copy: Self)
        ensures
            copy == *self,
    {
        match self {
            VideoInfo::Stream(info) => VideoInfo::Stream(info.clone()),
            VideoInfo::Frame(update) => VideoInfo::Frame(update.clone()),
            VideoInfo::Codec(line) => VideoInfo::Codec(line.clone()),
        }
    }
}

impl Clone for ParseError {
    fn clone(&self) -> (copy: Self)
        ensures
            copy == *self,
    {
        ParseError {
            context: self.context.clone(),
            line: self.line.clone(),
            reason: self.reason.clone(),
        }
    }
}

impl Clone for InfoParser {
    fn clone(&self) -> (copy: Self)
        ensures
            copy == *self,
    {
        InfoParser { mode: self.mode.clone() }
    }
}

impl Clone for ParseContext {
    fn clone(&self) -> (copy: Self)
        ensures
            copy == *self,
    {
        match self {
            ParseContext::Stateless => ParseContext::Stateless,
            ParseContext::Output(num, to) => ParseContext::Output(*num, to.clone()),
            ParseContext::Input(num, from) => ParseContext::Input(*num, from.clone()),
        }
    }
}

/// The model of an optional text.
pub open spec fn text_of(text: Option<String>) -> Option<Seq<char>> {
    match text {
        Some(t) => Some(t@),
        None => None,
    }
}

impl View for Stream {
    type V = StreamView;

    open spec fn view(&self) -> StreamView {
        StreamView { num: self.num, width: self.width, height: self.height, fps: text_of(self.fps) }
    }
}

impl Stream {
    /// A stream has a positive width and height, and its rate, where it has
    /// one, is a floating-point literal.
    pub open spec fn wf(&self) -> bool {
        self@.wf()
    }
}

impl View for StreamInfo {
    type V = StreamInfoView;

    open spec fn view(&self) -> StreamInfoView {
        match *self {
            StreamInfo::Input { from, stream } => StreamInfoView::Input {
                from: from@,
                stream: stream@,
            },
            StreamInfo::Output { to, stream } => StreamInfoView::Output {
                to: to@,
                stream: stream@,
            },
        }
    }
}

impl View for FrameUpdate {
    type V = FrameUpdateView;

    open spec fn view(&self) -> FrameUpdateView {
        FrameUpdateView {
            frame: self.frame,
            fps: text_of(self.fps),
            dup: self.dup,
            drop: self.drop,
        }
    }
}

impl View for VideoInfo {
    type V = VideoInfoView;

    open spec fn view(&self) -> VideoInfoView {
        match *self {
            VideoInfo::Stream(info) => VideoInfoView::Stream(info@),
            VideoInfo::Frame(update) => VideoInfoView::Frame(update@),
            VideoInfo::Codec(line) => VideoInfoView::Codec(line@),
        }
    }
}

impl View for ParseContext {
    type V = ContextView;

    open spec fn view(&self) -> ContextView {
        match *self {
            ParseContext::Stateless => ContextView::Stateless,
            ParseContext::Output(num, to) => ContextView::Output(num, to@),
            ParseContext::Input(num, from) => ContextView::Input(num, from@),
        }
    }
}

impl View for ParseError {
    type V = ParseErrorView;

    open spec fn view(&self) -> ParseErrorView {
        ParseErrorView { context: self.context@, line: self.line@, reason: self.reason@ }
    }
}

impl View for InfoParser {
    type V = ContextView;

    closed spec fn view(&self) -> ContextView {
        self.mode@
    }
}

/// The model of what `push` returns.
pub open spec fn outcome_of(result: Result<Option<VideoInfo>, ParseError>) -> Outcome {
    match result {
        Ok(Some(info)) => Ok(Some(info@)),
        Ok(None) => Ok(None),
        Err(e) => Err(e@),
    }
}

/// The model of an entry of what `iter_on` returns.
pub open spec fn report_of(entry: Result<VideoInfo, ParseError>) -> Report {
    match entry {
        Ok(info) => Ok(info@),
        Err(e) => Err(e@),
    }
}

/// The texts of `lines`.
pub open spec fn texts_of(lines: Seq<&str>) -> Seq<Seq<char>> {
    lines.map_values(|line: &str| line@)
}

/// The models of `entries`.
pub open spec fn reports_of(entries: Seq<Result<VideoInfo, ParseError>>) -> Seq<Report> {
    entries.map_values(|entry: Result<VideoInfo, ParseError>| report_of(entry))
}

impl ParseError {
    /// The error in words: the reason, and the line that it is about.
    pub fn message(&self) -> (text: String)
        ensures
            text@ == self@.message(),
    {
        self.reason.clone().concat(": ").concat(self.line.as_str())
    }
}

/// What was found of a video stream so far.
struct Found {
    dims: Option<(u32, u32)>,
    rate: Option<String>,
}

impl Found {
    /// What `self` holds is what the fields `fields` name, all of whose rates are valid.
    spec fn sums(&self, fields: Seq<Seq<char>>) -> bool {
        &&& rates_valid(fields)
        &&& self.dims == last_dims(fields)
        &&& text_of(self.rate) == last_rate(fields)
    }
}

/// A field more: what the fields name afterwards.
proof fn lemma_one_more_field(fields: Seq<Seq<char>>, field: Seq<char>)
    ensures
        last_dims(fields.push(field)) == match dims_of(field) {
            Some(dims) => Some(dims),
            None => last_dims(fields),
        },
        last_rate(fields.push(field)) == match rate_of(field) {
            Some(rate) => Some(rate),
            None => last_rate(fields),
        },
        rates_valid(fields.push(field)) <==> rates_valid(fields) && rate_is_valid(field),
{
    let more = fields.push(field);
    assert(more.drop_last() =~= fields);
    assert(more.last() == field);
    if rates_valid(more) {
        assert(rate_is_valid(more[fields.len() as int]));
        assert forall|i: int| 0 <= i < fields.len() implies rate_is_valid(
            #[trigger] fields[i],
        ) by {
            assert(rate_is_valid(more[i]));
        }
    }
    if rates_valid(fields) && rate_is_valid(field) {
        assert forall|i: int| 0 <= i < more.len() implies rate_is_valid(#[trigger] more[i]) by {
            if i < fields.len() {
                assert(more[i] == fields[i]);
            }
        }
    }
}

/// Fields with an invalid rate among them stay invalid when more follow.
proof fn lemma_invalid_stays(fields: Seq<Seq<char>>, more: Seq<Seq<char>>)
    requires
        !rates_valid(fields),
    ensures
        !rates_valid(fields + more),
{
    let i = choose|i: int| 0 <= i < fields.len() && !rate_is_valid(#[trigger] fields[i]);
    assert((fields + more)[i] == fields[i]);
}

/// Once a piece read `Video`, the fields of later pieces are appended.
proof fn lemma_video_fields_grow(pieces: Seq<Seq<char>>, more: Seq<Seq<char>>)
    requires
        video_fields(pieces) is Some,
    ensures
        video_fields(pieces + more) is Some,
        exists|tail: Seq<Seq<char>>|
            video_fields(pieces + more) == Some(video_fields(pieces)->0 + tail),
    decreases more.len(),
{
    if more.len() == 0 {
        assert(pieces + more =~= pieces);
        assert(video_fields(pieces)->0 + Seq::<Seq<char>>::empty() =~= video_fields(pieces)->0);
    } else {
        lemma_video_fields_grow(pieces, more.drop_last());
        let tail = choose|tail: Seq<Seq<char>>|
            video_fields(pieces + more.drop_last()) == Some(video_fields(pieces)->0 + tail);
        assert((pieces + more).drop_last() =~= pieces + more.drop_last());
        assert((pieces + more).last() == more.last());
        let longer = tail + split(more.last(), ',');
        assert(video_fields(pieces)->0 + tail + split(more.last(), ',') =~= video_fields(pieces)->0
            + longer);
    }
}

/// The size that `word` names.
fn size(word: &[char]) -> (r: Option<(u32, u32)>)
    ensures
        r == size_in(word@),
{
    let at = find(word, 'x');
    if at == word.len() {
        return None;
    }
    let width = slice_subrange(word, 0, at);
    let tail = slice_subrange(word, at + 1, word.len());
    let height = slice_subrange(tail, 0, find(tail, ' '));
    match (parse_u32(width), parse_u32(height)) {
        (Ok(w), Ok(h)) => if w > 0 && h > 0 {
            Some((w, h))
        } else {
            None
        },
        _ => None,
    }
}

/// Reads the comma-separated fields of `part` onto `found`; `None` where a
/// field names a rate that is no floating-point literal.
fn scan_fields(part: &[char], found: Found, fps: &[char], Ghost(seen): Ghost<Seq<Seq<char>>>) -> (r:
    Option<Found>)
    requires
        found.sums(seen),
        fps@ == " fps"@,
    ensures
        match r {
            Some(f) => f.sums(seen + split(part@, ',')),
            None => !rates_valid(seen + split(part@, ',')),
        },
{
    let mut rest: &[char] = part;
    let mut found = found;
    let ghost mut done = seen;
    loop
        invariant
            fps@ == " fps"@,
            seen + split(part@, ',') == done + split(rest@, ','),
            found.sums(done),
        decreases rest.len(),
    {
        let end = find(rest, ',');
        let field = slice_subrange(rest, 0, end);
        let word = trimmed(field);
        proof {
            lemma_first_index(rest@, ',');
            lemma_one_more_field(done, field@);
        }
        if finishes_with(word, fps) {
            let rate = strip_end_repeated(word, fps);
            if !float_literal(rate) {
                proof {
                    lemma_split_first(rest@, ',');
                    let rest_fields = split(rest@, ',');
                    assert(rest_fields =~= seq![field@] + rest_fields.skip(1));
                    assert(done + rest_fields =~= done.push(field@) + rest_fields.skip(1));
                    lemma_invalid_stays(done.push(field@), rest_fields.skip(1));
                }
                return None;
            }
            found.rate = Some(string_of(rate));
        } else {
            match size(word) {
                Some(dims) => {
                    found.dims = Some(dims);
                },
                None => {},
            }
        }
        if end == rest.len() {
            proof {
                assert(field@ =~= rest@);
                assert(done + split(rest@, ',') =~= done.push(field@));
            }
            return Some(found);
        }
        proof {
            let next = rest@.skip(end + 1);
            assert(done + split(rest@, ',') =~= done.push(field@) + split(next, ','));
            done = done.push(field@);
        }
        rest = slice_subrange(rest, end + 1, rest.len());
    }
}

/// Reads the colon-separated pieces of `text`: nothing found where no piece
/// reads `Video`, an error where a field names an invalid rate.
fn scan_pieces(text: &[char]) -> (r: Result<Option<Found>, ()>)
    ensures
        match video_fields(split(text@, ':')) {
            None => r matches Ok(None),
            Some(fields) => if rates_valid(fields) {
                r matches Ok(Some(f)) && f.sums(fields)
            } else {
                r is Err
            },
        },
{
    let video = chars_of("Video");
    let fps = chars_of(" fps");
    let mut rest: &[char] = text;
    let mut found: Option<Found> = None;
    let ghost mut seen: Seq<Seq<char>> = Seq::empty();
    let ghost mut fields: Seq<Seq<char>> = Seq::empty();
    proof {
        assert(seen + split(text@, ':') =~= split(text@, ':'));
    }
    loop
        invariant
            video@ == "Video"@,
            fps@ == " fps"@,
            split(text@, ':') == seen + split(rest@, ':'),
            match found {
                None => video_fields(seen) is None,
                Some(f) => video_fields(seen) == Some(fields) && f.sums(fields),
            },
        decreases rest.len(),
    {
        let end = find(rest, ':');
        let piece = slice_subrange(rest, 0, end);
        let ghost longer = seen.push(piece@);
        proof {
            lemma_first_index(rest@, ':');
            assert(longer.drop_last() =~= seen);
            assert(longer.last() == piece@);
        }
        if found.is_none() && same(trimmed(piece), video.as_slice()) {
            found = Some(Found { dims: None, rate: None });
            proof {
                fields = Seq::empty();
                assert(rates_valid(fields));
            }
        }
        match found {
            Some(f) => {
                let ghost before_fields = fields;
                proof {
                    fields = before_fields + split(piece@, ',');
                    assert(video_fields(longer) == Some(fields)) by {
                        if video_fields(seen) is None {
                            assert(before_fields + split(piece@, ',') =~= split(piece@, ','));
                        }
                    }
                }
                match scan_fields(piece, f, fps.as_slice(), Ghost(before_fields)) {
                    None => {
                        proof {
                            lemma_split_first(rest@, ':');
                            let pieces = split(rest@, ':');
                            assert(pieces =~= seq![piece@] + pieces.skip(1));
                            assert(seen + pieces =~= longer + pieces.skip(1));
                            lemma_video_fields_grow(longer, pieces.skip(1));
                            let tail = choose|tail: Seq<Seq<char>>|
                                video_fields(longer + pieces.skip(1)) == Some(fields + tail);
                            lemma_invalid_stays(fields, tail);
                        }
                        return Err(());
                    },
                    Some(f) => {
                        found = Some(f);
                    },
                }
            },
            None => {
                found = None;
            },
        }
        if end == rest.len() {
            proof {
                assert(piece@ =~= rest@);
                assert(seen + split(rest@, ':') =~= longer);
            }
            return Ok(found);
        }
        proof {
            let next = rest@.skip(end + 1);
            assert(seen + split(rest@, ':') =~= longer + split(next, ':'));
            seen = longer;
        }
        rest = slice_subrange(rest, end + 1, rest.len());
    }
}

/// The last of the pieces of `text` between occurrences of `c`.
fn last_piece<'a>(text: &'a [char], c: char) -> (piece: &'a [char])
    ensures
        piece@ == split(text@, c).last(),
{
    let mut rest: &'a [char] = text;
    loop
        invariant
            split(text@, c).last() == split(rest@, c).last(),
        decreases rest.len(),
    {
        let end = find(rest, c);
        proof {
            lemma_first_index(rest@, c);
            lemma_split_first(rest@.skip(end + 1), c);
        }
        if end == rest.len() {
            return rest;
        }
        rest = slice_subrange(rest, end + 1, rest.len());
    }
}

/// How a number that failed to parse is described in a reason.
fn int_error_string(kind: IntError) -> (text: String)
    ensures
        text@ == int_error_text(kind),
{
    let name = match kind {
        IntError::Empty => "Empty",
        IntError::InvalidDigit => "InvalidDigit",
        IntError::PosOverflow => "PosOverflow",
    };
    "ParseIntError { kind: ".to_owned().concat(name).concat(" }")
}

/// The counters read so far.
spec fn tallied(fps: Option<String>, dup: Option<u32>, drop: Option<u32>) -> Tally {
    Tally { fps: text_of(fps), dup, drop }
}

/// Reads the counters of a progress line.
fn count(rest: &[char]) -> (r: (Option<String>, Option<u32>, Option<u32>))
    ensures
        tallied(r.0, r.1, r.2) == tally_of(rest@, Tally::none()),
{
    let fps_key = chars_of("fps");
    let dup_key = chars_of("dup");
    let drop_key = chars_of("drop");
    let mut fps: Option<String> = None;
    let mut dup: Option<u32> = None;
    let mut drop: Option<u32> = None;
    let mut left: &[char] = rest;
    loop
        invariant
            fps_key@ == "fps"@,
            dup_key@ == "dup"@,
            drop_key@ == "drop"@,
            tally_of(rest@, Tally::none()) == tally_of(left@, tallied(fps, dup, drop)),
        decreases left.len(),
    {
        let eq = find(left, '=');
        if eq == left.len() {
            return (fps, dup, drop);
        }
        let key = slice_subrange(left, 0, eq);
        let tail = slice_subrange(left, eq + 1, left.len());
        let value_on = trimmed_start(tail);
        let end = find(value_on, ' ');
        proof {
            lemma_trim_start_shorter(tail@);
        }
        if end < value_on.len() {
            let value = slice_subrange(value_on, 0, end);
            if same(key, fps_key.as_slice()) {
                fps = if float_literal(value) {
                    Some(string_of(value))
                } else {
                    None
                };
            } else if same(key, dup_key.as_slice()) {
                dup = match parse_u32(value) {
                    Ok(n) => Some(n),
                    Err(_) => None,
                };
            } else if same(key, drop_key.as_slice()) {
                drop = match parse_u32(value) {
                    Ok(n) => Some(n),
                    Err(_) => None,
                };
            }
            left = slice_subrange(value_on, end + 1, value_on.len());
        } else {
            left = tail;
        }
    }
}

impl InfoParser {
    /// A parser outside any block.
    pub fn default() -> (parser: Self)
        ensures
            parser@ == ContextView::Stateless,
    {
        InfoParser { mode: ParseContext::Stateless }
    }

    /// The error that refuses `line` for `reason` in the parser's block.
    pub fn error_on(&self, reason: String, line: &str) -> (e: ParseError)
        ensures
            e@ == (ParseErrorView { context: self@, line: line@, reason: reason@ }),
    {
        ParseError { context: self.mode.clone(), line: line.to_owned(), reason }
    }

    /// Opens the block that the header `line` names; `rest` is what follows `#`.
    fn open_block(&mut self, is_input: bool, rest: &[char], line: &str) -> (r: Result<
        Option<VideoInfo>,
        ParseError,
    >)
        requires
            is_header(line@),
            is_input == starts_with(line@, "Input #"@),
            rest@ == without_prefix(line@, header_tag(is_input)),
        ensures
            final(self)@ == header_step(old(self)@, line@).context,
            outcome_of(r) == header_step(old(self)@, line@).result,
    {
        let first_end = find(rest, ',');
        let first = slice_subrange(rest, 0, first_end);
        proof {
            lemma_split_first(rest@, ',');
        }
        match parse_u32(trimmed(first)) {
            Err(kind) => {
                let reason = "# not a number but ".to_owned().concat(
                    int_error_string(kind).as_str(),
                );
                Err(self.error_on(reason, line))
            },
            Ok(num) => {
                if first_end == rest.len() {
                    return Err(
                        self.error_on("no last stream element (from or to)".to_owned(), line),
                    );
                }
                let named = trimmed(last_piece(rest, ','));
                let quote = chars_of(
                    if is_input {
                        "from '"
                    } else {
                        "to '"
                    },
                );
                let close = chars_of("':");
                let endpoint = string_of(
                    strip_end(strip_start(named, quote.as_slice()), close.as_slice()),
                );
                self.mode = if is_input {
                    ParseContext::Input(num, endpoint)
                } else {
                    ParseContext::Output(num, endpoint)
                };
                Ok(None)
            },
        }
    }

    /// Reads the stream that `line` describes inside a block; `body` is what
    /// follows `Stream #`.
    fn describe(&mut self, body: &[char], line: &str) -> (r: Result<Option<VideoInfo>, ParseError>)
        requires
            !(old(self)@ is Stateless),
            body@ == without_prefix(trim(line@), "Stream #"@),
        ensures
            final(self)@ == stream_step(old(self)@, line@).context,
            outcome_of(r) == stream_step(old(self)@, line@).result,
    {
        let end = find(body, ':');
        let index = slice_subrange(body, 0, end);
        proof {
            lemma_split_first(body@, ':');
            lemma_first_index(body@, ':');
        }
        let num = match parse_u32(index) {
            Err(kind) => {
                let reason = "Stream # not a number ".to_owned().concat(
                    int_error_string(kind).as_str(),
                );
                return Err(self.error_on(reason, line));
            },
            Ok(num) => num,
        };
        let expected = match &self.mode {
            ParseContext::Stateless => 0,
            ParseContext::Output(n, _) => *n,
            ParseContext::Input(n, _) => *n,
        };
        if num != expected {
            let digits = decimal_digits(num as u64);
            let reason = "Stream ".to_owned().concat(string_of(digits.as_slice()).as_str()).concat(
                " didn't match Output",
            );
            return Err(self.error_on(reason, line));
        }
        if end == body.len() {
            proof {
                assert(split(body@, ':').skip(1) =~= Seq::<Seq<char>>::empty());
            }
            return Ok(None);
        }
        let rest = slice_subrange(body, end + 1, body.len());
        proof {
            assert(split(body@, ':').skip(1) =~= split(rest@, ':'));
        }
        match scan_pieces(rest) {
            Err(_) => Err(self.error_on("fps not a number".to_owned(), line)),
            Ok(None) => Ok(None),
            Ok(Some(found)) => match found.dims {
                None => Err(
                    self.error_on("didn't find <width>x<height> in video stream".to_owned(), line),
                ),
                Some((width, height)) => {
                    let stream = Stream { num, width, height, fps: found.rate };
                    let mut mode = ParseContext::Stateless;
                    core::mem::swap(&mut self.mode, &mut mode);
                    match mode {
                        ParseContext::Input(_, from) => Ok(
                            Some(VideoInfo::Stream(StreamInfo::Input { from, stream })),
                        ),
                        ParseContext::Output(_, to) => Ok(
                            Some(VideoInfo::Stream(StreamInfo::Output { to, stream })),
                        ),
                        ParseContext::Stateless => Ok(
                            Some(
                                VideoInfo::Stream(StreamInfo::Output { to: String::new(), stream }),
                            ),
                        ),
                    }
                },
            },
        }
    }

    /// Reads the progress that `line` reports; `report` is what follows `frame=`.
    fn progress(&self, report: &[char], line: &str) -> (r: Result<Option<VideoInfo>, ParseError>)
        requires
            report@ == without_prefix(trim(line@), "frame="@),
        ensures
            outcome_of(r) == progress_step(self@, line@).result,
    {
        let report = trimmed(report);
        let end = find(report, ' ');
        let token = slice_subrange(report, 0, end);
        let frame = match parse_u64(trimmed(token)) {
            Err(_) => {
                return Err(self.error_on("frame is no number".to_owned(), line));
            },
            Ok(frame) => frame,
        };
        let rest = if end < report.len() {
            slice_subrange(report, end + 1, report.len())
        } else {
            slice_subrange(report, end, report.len())
        };
        proof {
            if end == report.len() {
                assert(rest@ =~= Seq::<char>::empty());
            }
        }
        let (fps, dup, drop) = count(rest);
        Ok(Some(VideoInfo::Frame(FrameUpdate { frame, fps, dup, drop })))
    }

    /// Reads one line of diagnostics: the parser moves as the line says, and
    /// the line's event, if it has one, or the reason it is refused, comes back.
    pub fn push(&mut self, line: &str) -> (r: Result<Option<VideoInfo>, ParseError>)
        ensures
            final(self)@ == parse_line(old(self)@, line@).context,
            outcome_of(r) == parse_line(old(self)@, line@).result,
            r matches Ok(Some(VideoInfo::Stream(info))) ==> info@.stream().wf(),
    {
        proof {
            lemma_announced_stream_is_well_formed(self@, line@);
        }
        let chars = chars_of(line);
        let text = chars.as_slice();
        let input = chars_of("Input #");
        let output = chars_of("Output #");
        if begins_with(text, input.as_slice()) {
            return self.open_block(true, strip_start(text, input.as_slice()), line);
        }
        if begins_with(text, output.as_slice()) {
            return self.open_block(false, strip_start(text, output.as_slice()), line);
        }
        if text.len() > 0 && text[0] == '[' && find(text, ']') < text.len() {
            return Ok(Some(VideoInfo::Codec(line.to_owned())));
        }
        let word = trimmed(text);
        let frame = chars_of("frame=");
        let stream = chars_of("Stream #");
        let is_progress = begins_with(word, frame.as_slice());
        if (text.len() == 0 || !space(text[0])) && !is_progress {
            self.mode = ParseContext::Stateless;
            return Ok(None);
        }
        let in_block = match &self.mode {
            ParseContext::Stateless => false,
            _ => true,
        };
        if in_block && begins_with(word, stream.as_slice()) {
            return self.describe(strip_start(word, stream.as_slice()), line);
        }
        if is_progress {
            return self.progress(strip_start(word, frame.as_slice()), line);
        }
        Ok(None)
    }

    /// What `line` means in `context`, as a function: the block afterwards,
    /// and the line's event or the reason it is refused.
    pub fn step(context: ParseContext, line: &str) -> (r: (
        ParseContext,
        Result<Option<VideoInfo>, ParseError>,
    ))
        ensures
            r.0@ == parse_line(context@, line@).context,
            outcome_of(r.1) == parse_line(context@, line@).result,
    {
        let mut parser = InfoParser { mode: context };
        let result = parser.push(line);
        (parser.mode, result)
    }

    /// The block that the parser is in.
    pub fn context(&self) -> (context: &ParseContext)
        ensures
            context@ == self@,
    {
        &self.mode
    }

    /// Reads `lines` in order and returns what they report: every event and
    /// every error, in the order of their lines.
    pub fn iter_on(&mut self, lines: &[&str]) -> (infos: Vec<Result<VideoInfo, ParseError>>)
        ensures
            final(self)@ == parse_lines(old(self)@, texts_of(lines@)).context,
            reports_of(infos@) == parse_lines(old(self)@, texts_of(lines@)).reports,
    {
        let ghost start = self@;
        let ghost texts = texts_of(lines@);
        let mut infos: Vec<Result<VideoInfo, ParseError>> = Vec::new();
        let mut i: usize = 0;
        proof {
            assert(reports_of(infos@) =~= Seq::<Report>::empty());
        }
        while i < lines.len()
            invariant
                i <= lines.len(),
                texts == texts_of(lines@),
                self@ == parse_lines(start, texts.take(i as int)).context,
                reports_of(infos@) == parse_lines(start, texts.take(i as int)).reports,
            decreases lines.len() - i,
        {
            let ghost before = infos@;
            let outcome = self.push(lines[i]);
            proof {
                assert(texts.take(i + 1).drop_last() =~= texts.take(i as int));
                assert(texts.take(i + 1).last() == lines@[i as int]@);
            }
            match outcome {
                Ok(Some(info)) => {
                    infos.push(Ok(info));
                    proof {
                        assert(reports_of(infos@) =~= reports_of(before) + seq![Ok(info@)]);
                    }
                },
                Ok(None) => {
                    proof {
                        assert(reports_of(before) + Seq::<Report>::empty() =~= reports_of(before));
                    }
                },
                Err(e) => {
                    infos.push(Err(e));
                    proof {
                        assert(reports_of(infos@) =~= reports_of(before) + seq![Err(e@)]);
                    }
                },
            }
            i += 1;
        }
        proof {
            assert(texts.take(lines.len() as int) =~= texts);
        }
        infos
    }
}

} // verus!
