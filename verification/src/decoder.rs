//! The decisions of the decoder's life: how the child is started, when the
//! output stream counts as known, what a frame read amounts to, and how the
//! child is shut down. The caller does the I/O and reports what it saw.

use vstd::prelude::*;
use vstd::string::*;

use crate::error::{
    InfoResult, IoFailure, IoFailureView, IoKind, VideoProcError, VideoProcErrorView, VideoResult,
};
use crate::grammar::{ParseErrorView, StreamInfoView, StreamView};
use crate::image_bgr::{image_bytes, image_size, BgrImage};
use crate::lines::texts;
use crate::parse::{Stream, StreamInfo};

verus! {

/// The program that decodes.
pub const PROGRAM: &'static str = "ffmpeg";

/// How long the driver waits for each message while the output stream is
/// not known, in seconds.
pub const DEADLINE_SECS: u64 = 10;

/// The byte that asks the child to stop.
pub const QUIT: u8 = 0x71;

/// The arguments before the inputs: no banner, then the flag that takes the
/// input.
pub open spec fn input_flags() -> Seq<Seq<char>> {
    seq!["-hide_banner"@, "-i"@]
}

/// The arguments after the inputs: no audio, raw images to a pipe, no
/// buffering, three bytes a pixel in blue, green, red order, to standard
/// output.
pub open spec fn output_flags() -> Seq<Seq<char>> {
    seq![
        "-an"@,
        "-f"@,
        "image2pipe"@,
        "-fflags"@,
        "nobuffer"@,
        "-pix_fmt"@,
        "bgr24"@,
        "-c:v"@,
        "rawvideo"@,
        "pipe:1"@,
    ]
}

/// Collects the arguments of the child.
#[derive(Debug)]
pub struct FFMpegDecoderBuilder {
    args: Vec<String>,
}

impl View for FFMpegDecoderBuilder {
    type V = Seq<Seq<char>>;

    /// The arguments collected so far.
    closed spec fn view(&self) -> Seq<Seq<char>> {
        texts(self.args@)
    }
}

impl Default for FFMpegDecoderBuilder {
    fn default() -> (builder: Self)
        ensures
            builder@ == input_flags(),
    {
        let mut args: Vec<String> = Vec::new();
        args.push("-hide_banner".to_owned());
        args.push("-i".to_owned());
        proof {
            assert(texts(args@) =~= input_flags());
        }
        FFMpegDecoderBuilder { args }
    }
}

impl FFMpegDecoderBuilder {
    /// A builder with the arguments that stand before the inputs.
    pub fn new() -> (builder: Self)
        ensures
            builder@ == input_flags(),
    {
        Default::default()
    }

    /// Adds the arguments that name the input, in order.
    pub fn input(self, input: Vec<String>) -> (builder: Self)
        ensures
            builder@ == self@ + texts(input@),
    {
        let mut args = self.args;
        let mut input = input;
        let ghost before = args@;
        let ghost added = input@;
        args.append(&mut input);
        proof {
            assert(texts(before + added) =~= texts(before) + texts(added));
        }
        FFMpegDecoderBuilder { args }
    }

    /// The arguments of the child: those collected, then those that select
    /// the output.
    pub fn cmd(self) -> (args: Vec<String>)
        ensures
            texts(args@) == self@ + output_flags(),
    {
        let mut args = self.args;
        let ghost before = args@;
        args.push("-an".to_owned());
        args.push("-f".to_owned());
        args.push("image2pipe".to_owned());
        args.push("-fflags".to_owned());
        args.push("nobuffer".to_owned());
        args.push("-pix_fmt".to_owned());
        args.push("bgr24".to_owned());
        args.push("-c:v".to_owned());
        args.push("rawvideo".to_owned());
        args.push("pipe:1".to_owned());
        proof {
            assert(texts(args@) =~= texts(before) + output_flags());
        }
        args
    }
}

/// What the info worker tells the driver: a stream, or that it is done.
#[derive(Debug, PartialEq)]
pub enum StreamInfoTerm {
    /// A stream of the input or the output.
    Info(StreamInfo),
    /// The last line read, which was not parsed; nothing follows it.
    Final(String),
}

impl Clone for StreamInfoTerm {
    fn clone(&self) -> (copy: Self)
        ensures
            copy == *self,
    {
        match self {
            StreamInfoTerm::Info(info) => StreamInfoTerm::Info(info.clone()),
            StreamInfoTerm::Final(line) => StreamInfoTerm::Final(line.clone()),
        }
    }
}

/// The model of a `StreamInfoTerm`.
pub enum TermView {
    Info(StreamInfoView),
    Final(Seq<char>),
}

impl View for StreamInfoTerm {
    type V = TermView;

    open spec fn view(&self) -> TermView {
        match *self {
            StreamInfoTerm::Info(info) => TermView::Info(info@),
            StreamInfoTerm::Final(line) => TermView::Final(line@),
        }
    }
}

/// What travels from the info worker to the driver.
pub type InfoMessage = InfoResult<StreamInfoTerm>;

/// The model of an `InfoMessage`.
pub type MessageView = Result<TermView, ParseErrorView>;

/// The model of `message`.
pub open spec fn message_of(message: InfoMessage) -> MessageView {
    match message {
        Ok(term) => Ok(term@),
        Err(e) => Err(e@),
    }
}

/// The models of `messages`.
pub open spec fn messages_of(messages: Seq<InfoMessage>) -> Seq<MessageView> {
    messages.map_values(|message: InfoMessage| message_of(message))
}

/// How the wait for a message ended without one.
#[derive(Clone, Copy, Debug, PartialEq, Eq, Structural)]
pub enum WaitEnd {
    /// No message came before the deadline.
    Timeout,
    /// The worker is gone.
    Disconnected,
}

/// The output stream that `message` announces, if it announces one.
pub open spec fn announced(message: MessageView) -> Option<StreamView> {
    match message {
        Ok(TermView::Info(StreamInfoView::Output { stream, .. })) => Some(stream),
        _ => None,
    }
}

/// The last line that the worker has read by `message`, or `line` where
/// the message holds none.
pub open spec fn last_words(message: MessageView, line: Option<Seq<char>>) -> Option<Seq<char>> {
    match message {
        Ok(TermView::Final(last)) => Some(last),
        _ => line,
    }
}

/// Why the output stream is not known: how the wait ended, and the last
/// line that the worker read, where it told.
pub open spec fn explanation(end: WaitEnd, line: Option<Seq<char>>) -> Seq<char> {
    let why = match end {
        WaitEnd::Timeout => "timeout"@,
        WaitEnd::Disconnected => "disconnected"@,
    };
    match line {
        None => why,
        Some(line) => why + " - "@ + line,
    }
}

/// The start of a decoder from the messages that arrive, in order, before
/// the wait ends: the first output stream announced, or else the reason
/// there is none. Input streams and errors among the messages are passed
/// over.
pub open spec fn await_output(messages: Seq<MessageView>, line: Option<Seq<char>>, end: WaitEnd)
    -> Result<StreamView, Seq<char>>
    decreases messages.len(),
{
    if messages.len() == 0 {
        Err(explanation(end, line))
    } else {
        match announced(messages[0]) {
            Some(stream) => Ok(stream),
            None => await_output(messages.drop_first(), last_words(messages[0], line), end),
        }
    }
}

/// A decoder that is starting: the driver waits for the output stream.
#[derive(Debug)]
pub struct Startup {
    final_line: Option<String>,
}

impl View for Startup {
    type V = Option<Seq<char>>;

    /// The last line that the worker reported, if it has.
    closed spec fn view(&self) -> Option<Seq<char>> {
        match self.final_line {
            Some(line) => Some(line@),
            None => None,
        }
    }
}

/// What a message does to a decoder that is starting.
#[derive(Debug)]
pub enum StartStep {
    /// The output stream is not known yet.
    Waiting(Startup),
    /// The output stream is known: the decoder can be used.
    Ready(FFMpegDecoder),
}

/// Decodes a video through a child process: the stream that the child
/// writes, and the number of frames read from it.
#[derive(Debug)]
pub struct FFMpegDecoder {
    /// The number of frames read so far.
    pub frame_counter: u64,
    /// The stream that the child writes.
    pub video_output: Stream,
    started: (),
}

/// The model of an `FFMpegDecoder`.
pub struct DecoderView {
    pub frame_counter: u64,
    pub video_output: StreamView,
}

impl View for FFMpegDecoder {
    type V = DecoderView;

    closed spec fn view(&self) -> DecoderView {
        DecoderView { frame_counter: self.frame_counter, video_output: self.video_output@ }
    }
}

/// A decoder that has read no frame of `stream` yet.
pub open spec fn fresh(stream: StreamView) -> DecoderView {
    DecoderView { frame_counter: 0, video_output: stream }
}

impl Startup {
    /// A start at which nothing has arrived.
    pub fn new() -> (startup: Self)
        ensures
            startup@ == None::<Seq<char>>,
    {
        Startup { final_line: None }
    }

    /// Takes a message from the worker. An output stream makes the decoder
    /// ready, at frame 0; a last line is kept for the explanation; anything
    /// else changes nothing.
    pub fn on_message(self, message: &InfoMessage) -> (step: StartStep)
        ensures
            match announced(message_of(*message)) {
                Some(stream) => step matches StartStep::Ready(decoder) && decoder@ == fresh(stream),
                None => step matches StartStep::Waiting(startup) && startup@ == last_words(
                    message_of(*message),
                    self@,
                ),
            },
    {
        match message {
            Ok(StreamInfoTerm::Info(StreamInfo::Output { stream, .. })) => StartStep::Ready(
                FFMpegDecoder { frame_counter: 0, video_output: stream.clone(), started: () },
            ),
            Ok(StreamInfoTerm::Final(line)) => StartStep::Waiting(
                Startup { final_line: Some(line.clone()) },
            ),
            _ => StartStep::Waiting(self),
        }
    }

    /// The wait ended without a message: the start has failed, for the
    /// reason that `explanation` gives.
    pub fn on_end(self, end: WaitEnd) -> (error: VideoProcError)
        ensures
            error@ == VideoProcErrorView::Start(explanation(end, self@)),
    {
        let why = match end {
            WaitEnd::Timeout => "timeout",
            WaitEnd::Disconnected => "disconnected",
        };
        let text = match self.final_line {
            None => why.to_owned(),
            Some(line) => why.to_owned().concat(" - ").concat(line.as_str()),
        };
        VideoProcError::Start(text)
    }
}

/// The number of bytes of a frame of `stream`: three for each pixel.
pub open spec fn frame_bytes(stream: StreamView) -> nat {
    (3 * stream.width * stream.height) as nat
}

/// A step of the shutdown: the stop was asked for, the output is to be drained.
#[derive(Debug)]
pub struct Draining {
    quit: (),
}

/// A step of the shutdown: the output is drained, the child's exit is to be awaited.
#[derive(Debug)]
pub struct Exiting {
    drained: (),
}

/// A step of the shutdown: the child has exited, the worker is to be joined.
#[derive(Debug)]
pub struct Joining {
    code: Option<i32>,
}

impl View for Joining {
    type V = Option<i32>;

    /// The exit code of the child; none where a signal ended it.
    closed spec fn view(&self) -> Option<i32> {
        self.code
    }
}

/// What the shutdown amounts to once the worker is joined: a failure of the
/// join, or else what the exit code says. A code above 0 is a failure, and
/// so is the end by a signal.
pub open spec fn ending(code: Option<i32>, joined: bool) -> Result<(), VideoProcErrorView> {
    if !joined {
        Err(VideoProcErrorView::Other("error joining meta data thread"@))
    } else {
        match code {
            Some(c) => if c > 0 {
                Err(VideoProcErrorView::ExitCode(c))
            } else {
                Ok(())
            },
            None => Err(VideoProcErrorView::Other("video child process killed by signal"@)),
        }
    }
}

/// The model of what a step of the shutdown returns.
pub open spec fn failure_of<T>(result: Result<T, VideoProcError>) -> Option<VideoProcErrorView> {
    match result {
        Ok(_) => None,
        Err(e) => Some(e@),
    }
}

impl FFMpegDecoder {
    /// Starts a decoder from the messages of the worker, in the order they
    /// arrived, and from how the wait after the last of them ended.
    pub fn try_new(messages: &[InfoMessage], end: WaitEnd) -> (started: VideoResult<Self>)
        ensures
            match await_output(messages_of(messages@), None, end) {
                Ok(stream) => started matches Ok(decoder) && decoder@ == fresh(stream),
                Err(why) => started matches Err(e) && e@ == VideoProcErrorView::Start(why),
            },
    {
        let ghost all = messages_of(messages@);
        let mut startup = Startup::new();
        let mut i: usize = 0;
        proof {
            assert(all.skip(0) =~= all);
        }
        while i < messages.len()
            invariant
                i <= messages.len(),
                all == messages_of(messages@),
                await_output(all, None, end) == await_output(all.skip(i as int), startup@, end),
            decreases messages.len() - i,
        {
            proof {
                assert(all.skip(i as int)[0] == message_of(messages@[i as int]));
                assert(all.skip(i as int).drop_first() =~= all.skip(i + 1));
            }
            match startup.on_message(&messages[i]) {
                StartStep::Ready(decoder) => {
                    return Ok(decoder);
                },
                StartStep::Waiting(next) => {
                    startup = next;
                },
            }
            i += 1;
        }
        Err(startup.on_end(end))
    }

    /// The number of frames read so far.
    pub fn frames_read(&self) -> (frames: u64)
        ensures
            frames == self@.frame_counter,
    {
        self.frame_counter
    }

    /// The stream that the child writes.
    pub fn output(&self) -> (stream: &Stream)
        ensures
            stream@ == self@.video_output,
    {
        &self.video_output
    }

    /// The number of bytes of a frame, where the machine can address as many.
    pub fn frame_len(&self) -> (len: Option<usize>)
        ensures
            match len {
                Some(n) => n == frame_bytes(self@.video_output) && n <= isize::MAX,
                None => frame_bytes(self@.video_output) > isize::MAX,
            },
    {
        let width = self.video_output.width;
        let height = self.video_output.height;
        assert(width * height <= 0xffff_ffff * 0xffff_ffff) by (nonlinear_arith)
            requires
                0 <= width <= 0xffff_ffff,
                0 <= height <= 0xffff_ffff,
        ;
        let pixels: u64 = width as u64 * height as u64;
        let bytes: u128 = 3 * (pixels as u128);
        assert(bytes == frame_bytes(self@.video_output)) by (nonlinear_arith)
            requires
                bytes == 3 * pixels,
                pixels == width * height,
                frame_bytes(self@.video_output) == (3 * width * height) as nat,
        ;
        if bytes <= isize::MAX as u128 {
            Some(bytes as usize)
        } else {
            None
        }
    }

    /// An image of the size of the output stream, all black, to read frames into.
    pub fn empty_image(&self) -> (image: BgrImage)
        requires
            frame_bytes(self@.video_output) <= isize::MAX,
        ensures
            image_size(image) == (self@.video_output.width, self@.video_output.height),
            image_bytes(image) == Seq::new(frame_bytes(self@.video_output), |i: int| 0u8),
    {
        BgrImage::new(self.video_output.width, self.video_output.height)
    }

    /// An image of the size of the output stream, all black, where the
    /// machine can address as many bytes.
    pub fn try_empty_image(&self) -> (image: Option<BgrImage>)
        ensures
            match image {
                Some(image) => image_size(image) == (
                    self@.video_output.width,
                    self@.video_output.height,
                ) && image_bytes(image) == Seq::new(
                    frame_bytes(self@.video_output),
                    |i: int| 0u8,
                ),
                None => frame_bytes(self@.video_output) > isize::MAX,
            },
    {
        match self.frame_len() {
            Some(_) => Some(self.empty_image()),
            None => None,
        }
    }

    /// Whether `image` has the size of the output stream, so that a frame fills it.
    pub fn fits(&self, image: &BgrImage) -> (yes: bool)
        ensures
            yes == (image_size(*image) == (self@.video_output.width, self@.video_output.height)),
    {
        let (width, height) = image.dimensions();
        width == self.video_output.width && height == self.video_output.height
    }

    /// An image to read the next frame into: `image` itself, untouched,
    /// where it has the size of the output stream, and a new black image of
    /// that size otherwise.
    pub fn reuse_or_empty(&self, image: Option<BgrImage>) -> (ready: BgrImage)
        requires
            frame_bytes(self@.video_output) <= isize::MAX,
        ensures
            image_size(ready) == (self@.video_output.width, self@.video_output.height),
            match image {
                Some(given) => if image_size(given) == image_size(ready) {
                    ready == given
                } else {
                    image_bytes(ready) == Seq::new(frame_bytes(self@.video_output), |i: int| 0u8)
                },
                None => image_bytes(ready) == Seq::new(
                    frame_bytes(self@.video_output),
                    |i: int| 0u8,
                ),
            },
    {
        match image {
            Some(given) => if self.fits(&given) {
                given
            } else {
                self.empty_image()
            },
            None => self.empty_image(),
        }
    }

    /// Takes the outcome of reading one frame's worth of bytes from the
    /// child. A full read counts the frame and returns its number, from 1
    /// on. A read that the end of the stream cut short is told apart from
    /// every other failure, and neither counts.
    pub fn read_frame(&mut self, read: Result<(), IoFailure>) -> (frame: VideoResult<u64>)
        requires
            old(self)@.frame_counter < u64::MAX,
        ensures
            final(self)@.video_output == old(self)@.video_output,
            match read {
                Ok(_) => {
                    &&& frame == Ok::<u64, VideoProcError>((old(self)@.frame_counter + 1) as u64)
                    &&& final(self)@.frame_counter == old(self)@.frame_counter + 1
                },
                Err(e) => {
                    &&& frame matches Err(error) && error@ == read_failure(e@)
                    &&& final(self)@.frame_counter == old(self)@.frame_counter
                },
            },
    {
        match read {
            Ok(_) => {
                self.frame_counter += 1;
                Ok(self.frame_counter)
            },
            Err(e) => match e.kind {
                IoKind::UnexpectedEof => Err(VideoProcError::FinishedNormally { source: e }),
                _ => Err(VideoProcError::ExactReadError { source: e }),
            },
        }
    }

    /// Begins the shutdown with the outcome of writing the quit byte to the
    /// child's input; `None` where the child has no input pipe. A broken
    /// pipe is no failure: the child has exited already.
    pub fn close(self, quit: Option<Result<(), IoFailure>>) -> (step: VideoResult<Draining>)
        ensures
            failure_of(step) == quit_failure(quit_of(quit)),
    {
        match quit {
            None => Err(VideoProcError::is_missing("stdin pipe")),
            Some(Ok(_)) => Ok(Draining { quit: () }),
            Some(Err(e)) => match e.kind {
                IoKind::BrokenPipe => Ok(Draining { quit: () }),
                _ => Err(VideoProcError::explain_io("couldn't send q to process", e)),
            },
        }
    }
}

/// The error for a frame read that failed: the stream finished, or the
/// read failed otherwise.
pub open spec fn read_failure(e: IoFailureView) -> VideoProcErrorView {
    if e.kind == IoKind::UnexpectedEof {
        VideoProcErrorView::FinishedNormally { source: e }
    } else {
        VideoProcErrorView::ExactReadError { source: e }
    }
}

/// The model of the outcome of writing the quit byte.
pub open spec fn quit_of(quit: Option<Result<(), IoFailure>>) -> Option<Option<IoFailureView>> {
    match quit {
        None => None,
        Some(Ok(_)) => Some(None),
        Some(Err(e)) => Some(Some(e@)),
    }
}

/// Why the shutdown stops at the quit byte, if it does: the input pipe is
/// missing, or the write failed otherwise than by a broken pipe.
pub open spec fn quit_failure(quit: Option<Option<IoFailureView>>) -> Option<VideoProcErrorView> {
    match quit {
        None => Some(VideoProcErrorView::MissingValue("stdin pipe"@)),
        Some(None) => None,
        Some(Some(e)) => if e.kind == IoKind::BrokenPipe {
            None
        } else {
            Some(VideoProcErrorView::IO { msg: "couldn't send q to process"@, source: e })
        },
    }
}

impl Draining {
    /// The rest of the child's output was read and dropped.
    pub fn drained(self) -> Exiting {
        Exiting { drained: () }
    }
}

impl Exiting {
    /// Takes the outcome of waiting for the child: its exit code, `None`
    /// where a signal ended it, or the failure of the wait.
    pub fn exited(self, status: Result<Option<i32>, IoFailure>) -> (step: VideoResult<Joining>)
        ensures
            match status {
                Ok(code) => step matches Ok(joining) && joining@ == code,
                Err(e) => step matches Err(error) && error@ == (VideoProcErrorView::IO {
                    msg: "waiting on video process"@,
                    source: e@,
                }),
            },
    {
        match status {
            Ok(code) => Ok(Joining { code }),
            Err(e) => Err(VideoProcError::explain_io("waiting on video process", e)),
        }
    }
}

impl Joining {
    /// Takes the outcome of joining the worker, and ends the shutdown.
    pub fn joined(self, joined: bool) -> (end: VideoResult<()>)
        ensures
            match ending(self@, joined) {
                Ok(_) => end is Ok,
                Err(e) => end matches Err(error) && error@ == e,
            },
    {
        if !joined {
            return Err(VideoProcError::Other("error joining meta data thread".to_owned()));
        }
        match self.code {
            Some(c) => if c > 0 {
                Err(VideoProcError::ExitCode(c))
            } else {
                Ok(())
            },
            None => Err(VideoProcError::Other("video child process killed by signal".to_owned())),
        }
    }
}

} // verus!
