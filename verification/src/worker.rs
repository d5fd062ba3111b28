//! The info worker's decisions: it turns the bytes of the child's error
//! pipe into events, and says for each event how it is logged and whether
//! the driver must be told.

use vstd::prelude::*;

use crate::decoder::{InfoMessage, MessageView, StreamInfoTerm, TermView};
use crate::grammar::{parse_line, parse_lines, ContextView, Outcome, Report, VideoInfoView};
use crate::lines::{is_break, lossy_text, lossy_texts, split_lines, FFMpegLineIter};
use crate::parse::{report_of, reports_of, InfoParser, ParseError, VideoInfo};

verus! {

/// The capacity of the queue from the worker to the driver.
pub const QUEUE_CAPACITY: usize = 2;

/// How much a log entry matters.
#[derive(Clone, Copy, Debug, PartialEq, Eq, Structural)]
pub enum Level {
    Error,
    Info,
    Debug,
}

/// How a report is logged: streams and codec notices as information,
/// progress for debugging, errors as errors.
pub open spec fn severity(report: Report) -> Level {
    match report {
        Ok(VideoInfoView::Stream(_)) => Level::Info,
        Ok(VideoInfoView::Frame(_)) => Level::Debug,
        Ok(VideoInfoView::Codec(_)) => Level::Info,
        Err(_) => Level::Error,
    }
}

/// What the driver must be told of a report: streams and errors. Progress
/// and codec notices are logged only.
pub open spec fn delivery(report: Report) -> Option<MessageView> {
    match report {
        Ok(VideoInfoView::Stream(info)) => Some(Ok(TermView::Info(info))),
        Ok(_) => None,
        Err(e) => Some(Err(e)),
    }
}

/// The model of an optional message.
pub open spec fn delivery_of(message: Option<InfoMessage>) -> Option<MessageView> {
    match message {
        Some(Ok(term)) => Some(Ok(term@)),
        Some(Err(e)) => Some(Err(e@)),
        None => None,
    }
}

/// The level at which `msg` is logged.
pub fn log_info_handler(msg: &Result<VideoInfo, ParseError>) -> (level: Level)
    ensures
        level == severity(report_of(*msg)),
{
    match msg {
        Ok(VideoInfo::Stream(_)) => Level::Info,
        Ok(VideoInfo::Frame(_)) => Level::Debug,
        Ok(VideoInfo::Codec(_)) => Level::Info,
        Err(_) => Level::Error,
    }
}

/// The message that the driver must get for `msg`, if it must get one.
pub fn route(msg: &Result<VideoInfo, ParseError>) -> (message: Option<InfoMessage>)
    ensures
        delivery_of(message) == delivery(report_of(*msg)),
{
    match msg {
        Ok(VideoInfo::Stream(info)) => Some(Ok(StreamInfoTerm::Info(info.clone()))),
        Ok(_) => None,
        Err(e) => Some(Err(e.clone())),
    }
}

/// The model of an `InfoWorker`: the bytes of the line that is not ended
/// yet, and the block that the parser is in.
pub struct WorkerView {
    pub pending: Seq<u8>,
    pub context: ContextView,
}

/// Reads the diagnostics of the child: splits them into lines and parses
/// each line as it ends.
#[derive(Debug)]
pub struct InfoWorker {
    lines: FFMpegLineIter,
    parser: InfoParser,
}

impl View for InfoWorker {
    type V = WorkerView;

    closed spec fn view(&self) -> WorkerView {
        WorkerView { pending: self.lines@, context: self.parser@ }
    }
}

/// What an outcome reports, if anything.
pub open spec fn told(result: Outcome) -> Option<Report> {
    match result {
        Ok(Some(info)) => Some(Ok(info)),
        Ok(None) => None,
        Err(e) => Some(Err(e)),
    }
}

/// The model of an optional entry.
pub open spec fn told_of(entry: Option<Result<VideoInfo, ParseError>>) -> Option<Report> {
    match entry {
        Some(entry) => Some(report_of(entry)),
        None => None,
    }
}

/// The worker after one more byte.
pub open spec fn after_byte(worker: WorkerView, byte: u8) -> WorkerView {
    if is_break(byte) {
        WorkerView {
            pending: Seq::empty(),
            context: parse_line(worker.context, lossy_text(worker.pending)).context,
        }
    } else {
        WorkerView { pending: worker.pending.push(byte), context: worker.context }
    }
}

/// What one more byte reports: what the line says that it ends, if it ends one.
pub open spec fn byte_report(worker: WorkerView, byte: u8) -> Option<Report> {
    if is_break(byte) {
        told(parse_line(worker.context, lossy_text(worker.pending)).result)
    } else {
        None
    }
}

/// The worker after `bytes`: the lines that they end are parsed in order.
pub open spec fn after_bytes(worker: WorkerView, bytes: Seq<u8>) -> WorkerView {
    let split = split_lines(worker.pending, bytes);
    WorkerView {
        pending: split.pending,
        context: parse_lines(worker.context, lossy_texts(split.lines)).context,
    }
}

/// What `bytes` report: what the lines say that they end.
pub open spec fn bytes_reports(worker: WorkerView, bytes: Seq<u8>) -> Seq<Report> {
    parse_lines(worker.context, lossy_texts(split_lines(worker.pending, bytes).lines)).reports
}

impl InfoWorker {
    /// A worker that has read nothing.
    pub fn new() -> (worker: Self)
        ensures
            worker@ == (WorkerView { pending: Seq::empty(), context: ContextView::Stateless }),
    {
        InfoWorker { lines: FFMpegLineIter::new(), parser: InfoParser::default() }
    }

    /// Reads one byte of diagnostics. A byte that ends a line has the line
    /// parsed, and what the line reports comes back.
    pub fn on_byte(&mut self, byte: u8) -> (report: Option<Result<VideoInfo, ParseError>>)
        ensures
            final(self)@ == after_byte(old(self)@, byte),
            told_of(report) == byte_report(old(self)@, byte),
    {
        match self.lines.push(byte) {
            None => None,
            Some(line) => match self.parser.push(line.as_str()) {
                Ok(Some(info)) => Some(Ok(info)),
                Ok(None) => None,
                Err(e) => Some(Err(e)),
            },
        }
    }

    /// Reads `bytes` in order and returns what they report, in order.
    pub fn feed(&mut self, bytes: &[u8]) -> (reports: Vec<Result<VideoInfo, ParseError>>)
        ensures
            final(self)@ == after_bytes(old(self)@, bytes@),
            reports_of(reports@) == bytes_reports(old(self)@, bytes@),
    {
        let ghost start = self@;
        let mut reports: Vec<Result<VideoInfo, ParseError>> = Vec::new();
        let mut i: usize = 0;
        proof {
            assert(reports_of(reports@) =~= Seq::<Report>::empty());
        }
        while i < bytes.len()
            invariant
                i <= bytes.len(),
                self@ == after_bytes(start, bytes@.take(i as int)),
                reports_of(reports@) == bytes_reports(start, bytes@.take(i as int)),
            decreases bytes.len() - i,
        {
            let ghost before = reports@;
            let ghost split = split_lines(start.pending, bytes@.take(i as int));
            proof {
                assert(bytes@.take(i + 1).drop_last() =~= bytes@.take(i as int));
                if is_break(bytes@[i as int]) {
                    let ended = lossy_texts(split.lines);
                    let more = lossy_texts(split.lines.push(split.pending));
                    assert(more =~= ended.push(lossy_text(split.pending)));
                    assert(more.drop_last() =~= ended);
                }
            }
            match self.on_byte(bytes[i]) {
                Some(report) => {
                    reports.push(report);
                    proof {
                        assert(reports_of(reports@) =~= reports_of(before) + seq![
                            report_of(report),
                        ]);
                    }
                },
                None => {
                    proof {
                        assert(reports_of(before) + Seq::<Report>::empty() =~= reports_of(before));
                    }
                },
            }
            i += 1;
        }
        proof {
            assert(bytes@.take(bytes.len() as int) =~= bytes@);
        }
        reports
    }

    /// Ends the worker when the pipe closes: the message that tells the
    /// driver the last line read, ended or not by a break, and that nothing
    /// follows.
    pub fn finish(self) -> (last: StreamInfoTerm)
        ensures
            last@ == TermView::Final(lossy_text(self@.pending)),
    {
        StreamInfoTerm::Final(self.lines.last_line())
    }
}

} // verus!
