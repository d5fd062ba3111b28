use ff_video::decoder::{
    FFMpegDecoder, FFMpegDecoderBuilder, InfoMessage, StartStep, Startup, StreamInfoTerm, WaitEnd,
    DEADLINE_SECS, PROGRAM, QUIT,
};
use ff_video::error::{IoFailure, IoKind, VideoProcError};
use ff_video::image_bgr::BgrImage;
use ff_video::parse::{ParseContext, ParseError, Stream, StreamInfo};

fn stream(width: u32, height: u32) -> Stream {
    Stream { num: 0, width, height, fps: Some("30".to_string()) }
}

fn output(width: u32, height: u32) -> InfoMessage {
    Ok(StreamInfoTerm::Info(StreamInfo::Output { to: "pipe:".to_string(), stream: stream(width, height) }))
}

fn input(width: u32, height: u32) -> InfoMessage {
    Ok(StreamInfoTerm::Info(StreamInfo::Input { from: "a.mp4".to_string(), stream: stream(width, height) }))
}

fn refusal() -> InfoMessage {
    Err(ParseError {
        context: ParseContext::Stateless,
        line: "frame=x".to_string(),
        reason: "frame is no number".to_string(),
    })
}

fn last(line: &str) -> InfoMessage {
    Ok(StreamInfoTerm::Final(line.to_string()))
}

fn failure(kind: IoKind) -> IoFailure {
    IoFailure { kind, text: "it failed".to_string() }
}

fn decoder(width: u32, height: u32) -> FFMpegDecoder {
    FFMpegDecoder::try_new(&[output(width, height)], WaitEnd::Timeout).unwrap()
}

#[test]
fn command_line_is_flags_inputs_flags() {
    assert_eq!(PROGRAM, "ffmpeg");
    let builder = FFMpegDecoderBuilder::default()
        .input(vec!["-re".to_string(), "clip.mp4".to_string()]);
    assert_eq!(
        builder.cmd(),
        vec![
            "-hide_banner", "-i", "-re", "clip.mp4", "-an", "-f", "image2pipe", "-fflags",
            "nobuffer", "-pix_fmt", "bgr24", "-c:v", "rawvideo", "pipe:1"
        ]
    );
    assert_eq!(
        FFMpegDecoderBuilder::new().cmd(),
        vec![
            "-hide_banner", "-i", "-an", "-f", "image2pipe", "-fflags", "nobuffer", "-pix_fmt",
            "bgr24", "-c:v", "rawvideo", "pipe:1"
        ]
    );
    let twice = FFMpegDecoderBuilder::new().input(vec!["a".to_string()]).input(vec![]).input(vec!["b".to_string()]);
    assert_eq!(twice.cmd()[..4], ["-hide_banner", "-i", "a", "b"]);
}

#[test]
fn decoder_starts_at_the_first_output_stream() {
    let messages = [input(640, 480), refusal(), last("bye"), output(1280, 720), output(2, 2)];
    for end in [WaitEnd::Timeout, WaitEnd::Disconnected] {
        let decoder = FFMpegDecoder::try_new(&messages, end).unwrap();
        assert_eq!(decoder.video_output, stream(1280, 720));
        assert_eq!(decoder.frame_counter, 0);
    }
}

#[test]
fn no_output_stream_before_the_deadline() {
    assert_eq!(DEADLINE_SECS, 10);
    assert_eq!(
        FFMpegDecoder::try_new(&[], WaitEnd::Timeout).unwrap_err(),
        VideoProcError::Start("timeout".to_string())
    );
    assert_eq!(
        FFMpegDecoder::try_new(&[input(640, 480), refusal()], WaitEnd::Timeout).unwrap_err(),
        VideoProcError::Start("timeout".to_string())
    );
    assert_eq!(
        FFMpegDecoder::try_new(&[last("a"), input(1, 1), last("No such file")], WaitEnd::Timeout)
            .unwrap_err(),
        VideoProcError::Start("timeout - No such file".to_string())
    );
}

#[test]
fn worker_gone_without_an_output_stream() {
    assert_eq!(
        FFMpegDecoder::try_new(&[], WaitEnd::Disconnected).unwrap_err(),
        VideoProcError::Start("disconnected".to_string())
    );
    assert_eq!(
        FFMpegDecoder::try_new(&[last("x.mp4: Invalid data")], WaitEnd::Disconnected).unwrap_err(),
        VideoProcError::Start("disconnected - x.mp4: Invalid data".to_string())
    );
}

#[test]
fn startup_step_by_step() {
    let startup = Startup::new();
    let startup = match startup.on_message(&input(3, 4)) {
        StartStep::Waiting(s) => s,
        StartStep::Ready(_) => panic!("an input stream starts nothing"),
    };
    let startup = match startup.on_message(&last("the end")) {
        StartStep::Waiting(s) => s,
        StartStep::Ready(_) => panic!("a last line starts nothing"),
    };
    let startup = match startup.on_message(&refusal()) {
        StartStep::Waiting(s) => s,
        StartStep::Ready(_) => panic!("an error starts nothing"),
    };
    match Startup::new().on_message(&output(3, 4)) {
        StartStep::Ready(d) => assert_eq!((d.frame_counter, d.video_output), (0, stream(3, 4))),
        StartStep::Waiting(_) => panic!("an output stream starts the decoder"),
    }
    assert_eq!(
        startup.on_end(WaitEnd::Disconnected),
        VideoProcError::Start("disconnected - the end".to_string())
    );
}

#[test]
fn frame_length_is_three_bytes_a_pixel() {
    assert_eq!(decoder(1280, 720).frame_len(), Some(2_764_800));
    assert_eq!(decoder(1, 1).frame_len(), Some(3));
    assert_eq!(decoder(0, 720).frame_len(), Some(0));
    assert_eq!(decoder(u32::MAX, u32::MAX).frame_len(), None);
    assert!(decoder(u32::MAX, u32::MAX).try_empty_image().is_none());
    let widest = decoder(65536, 32768).frame_len();
    if usize::BITS >= 64 {
        assert_eq!(widest.map(|n| n as u64), Some(6_442_450_944));
    } else {
        assert_eq!(widest, None);
    }
}

#[test]
fn empty_image_is_black_and_of_the_stream_size() {
    let d = decoder(7, 5);
    let image = d.empty_image();
    assert_eq!(image.dimensions(), (7, 5));
    assert_eq!(image.deref(), vec![0u8; 105]);
    assert!(d.fits(&image));
    assert!(!d.fits(&BgrImage::new(5, 7)));
    assert!(!decoder(7, 6).fits(&image));
    let again = d.try_empty_image().unwrap();
    assert_eq!(again.dimensions(), (7, 5));
    assert_eq!(again.deref().len(), d.frame_len().unwrap());
}

#[test]
fn image_holds_what_is_written_into_it() {
    let mut image = BgrImage::new(2, 1);
    image.deref_mut().copy_from_slice(&[1, 2, 3, 4, 5, 6]);
    assert_eq!(image.deref(), [1, 2, 3, 4, 5, 6]);
    assert_eq!(image.dimensions(), (2, 1));
}

#[test]
fn frames_are_counted_from_one() {
    let mut d = decoder(2, 2);
    assert_eq!(d.read_frame(Ok(())), Ok(1));
    assert_eq!(d.read_frame(Ok(())), Ok(2));
    assert_eq!(d.frame_counter, 2);
    assert_eq!(d.read_frame(Ok(())), Ok(3));
    assert_eq!(d.video_output, stream(2, 2));
}

#[test]
fn end_of_stream_is_not_an_io_failure() {
    let mut d = decoder(2, 2);
    assert_eq!(d.read_frame(Ok(())), Ok(1));
    assert_eq!(
        d.read_frame(Err(failure(IoKind::UnexpectedEof))),
        Err(VideoProcError::FinishedNormally { source: failure(IoKind::UnexpectedEof) })
    );
    assert_eq!(d.frame_counter, 1);
    for kind in [IoKind::BrokenPipe, IoKind::Other] {
        assert_eq!(
            d.read_frame(Err(failure(kind))),
            Err(VideoProcError::ExactReadError { source: failure(kind) })
        );
    }
    assert_eq!(d.frame_counter, 1);
    assert_eq!(d.frames_read(), 1);
    assert_eq!(d.output(), &stream(2, 2));
    assert_eq!(d.read_frame(Ok(())), Ok(2));
}

#[test]
fn shutdown_of_a_child_that_exits_cleanly() {
    assert_eq!(QUIT, b'q');
    let step = decoder(2, 2).close(Some(Ok(()))).unwrap();
    let step = step.drained().exited(Ok(Some(0))).unwrap();
    assert_eq!(step.joined(true), Ok(()));
}

#[test]
fn shutdown_goes_on_after_a_broken_pipe() {
    let step = decoder(2, 2).close(Some(Err(failure(IoKind::BrokenPipe)))).unwrap();
    let step = step.drained().exited(Ok(Some(0))).unwrap();
    assert_eq!(step.joined(true), Ok(()));
}

#[test]
fn shutdown_stops_where_the_quit_byte_cannot_be_written() {
    assert_eq!(
        decoder(2, 2).close(None).unwrap_err(),
        VideoProcError::MissingValue("stdin pipe".to_string())
    );
    for kind in [IoKind::Other, IoKind::UnexpectedEof] {
        assert_eq!(
            decoder(2, 2).close(Some(Err(failure(kind)))).unwrap_err(),
            VideoProcError::IO { msg: "couldn't send q to process".to_string(), source: failure(kind) }
        );
    }
}

#[test]
fn shutdown_reports_how_the_child_ended() {
    let wait = |status| decoder(2, 2).close(Some(Ok(()))).unwrap().drained().exited(status);
    assert_eq!(wait(Ok(Some(1))).unwrap().joined(true), Err(VideoProcError::ExitCode(1)));
    assert_eq!(wait(Ok(Some(255))).unwrap().joined(true), Err(VideoProcError::ExitCode(255)));
    assert_eq!(wait(Ok(Some(-1))).unwrap().joined(true), Ok(()));
    assert_eq!(
        wait(Ok(None)).unwrap().joined(true),
        Err(VideoProcError::Other("video child process killed by signal".to_string()))
    );
    assert_eq!(
        wait(Err(failure(IoKind::Other))).unwrap_err(),
        VideoProcError::IO { msg: "waiting on video process".to_string(), source: failure(IoKind::Other) }
    );
}

#[test]
fn shutdown_fails_where_the_worker_cannot_be_joined() {
    for code in [Some(0), Some(3), None] {
        let step = decoder(2, 2).close(Some(Ok(()))).unwrap().drained().exited(Ok(code)).unwrap();
        assert_eq!(
            step.joined(false),
            Err(VideoProcError::Other("error joining meta data thread".to_string()))
        );
    }
}

#[test]
fn an_image_of_the_right_size_is_reused() {
    let d = decoder(2, 1);
    let mut image = d.reuse_or_empty(None);
    assert_eq!(image.deref(), [0; 6]);
    image.deref_mut().copy_from_slice(&[9, 8, 7, 6, 5, 4]);
    let image = d.reuse_or_empty(Some(image));
    assert_eq!(image.deref(), [9, 8, 7, 6, 5, 4]);
    let wider = decoder(3, 1).reuse_or_empty(Some(image));
    assert_eq!(wider.dimensions(), (3, 1));
    assert_eq!(wider.deref(), [0; 9]);
    let turned = decoder(1, 3).reuse_or_empty(Some(wider));
    assert_eq!(turned.dimensions(), (1, 3));
}
