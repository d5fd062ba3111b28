use ff_video::decoder::StreamInfoTerm;
use ff_video::parse::{
    FrameUpdate, ParseContext, ParseError, Stream, StreamInfo, VideoInfo,
};
use ff_video::worker::{log_info_handler, route, InfoWorker, Level, QUEUE_CAPACITY};

const DIAGNOSTICS: &[u8] = b"Input #0, lavfi, from 'testsrc':\n  Duration: N/A\n  Stream #0:0: Video: wrapped_avframe, rgb24, 320x240 [SAR 1:1 DAR 4:3], 25 fps, 25 tbr\nOutput #0, image2pipe, to 'pipe:1':\n  Stream #0:0: Video: rawvideo (BGR[24] / 0x18524742), bgr24(progressive), 320x240 [SAR 1:1 DAR 4:3], q=2-31, 46080 kb/s, 25 fps, 25 tbn\nframe=    1 fps=0.0 q=-0.0 size=     225kB\rframe=   51 fps= 49 q=-0.0 size=   11475kB\r\xff\n  Stream #1: Video\nConversion failed!";

fn input_stream() -> VideoInfo {
    VideoInfo::Stream(StreamInfo::Input {
        from: "testsrc".to_string(),
        stream: Stream { num: 0, width: 320, height: 240, fps: Some("25".to_string()) },
    })
}

fn output_stream() -> VideoInfo {
    VideoInfo::Stream(StreamInfo::Output {
        to: "pipe:1".to_string(),
        stream: Stream { num: 0, width: 320, height: 240, fps: Some("25".to_string()) },
    })
}

fn progress(frame: u64, fps: &str) -> VideoInfo {
    VideoInfo::Frame(FrameUpdate { frame, fps: Some(fps.to_string()), dup: None, drop: None })
}

#[test]
fn worker_reports_what_the_lines_say() {
    let mut worker = InfoWorker::new();
    let reports = worker.feed(DIAGNOSTICS);
    assert_eq!(
        reports,
        vec![Ok(input_stream()), Ok(output_stream()), Ok(progress(1, "0.0")), Ok(progress(51, "49"))]
    );
    assert_eq!(worker.finish(), StreamInfoTerm::Final("Conversion failed!".to_string()));
}

#[test]
fn worker_byte_by_byte_is_the_worker_on_all_bytes() {
    for cut in [0, 1, 33, 34, 200, DIAGNOSTICS.len()] {
        let mut whole = InfoWorker::new();
        let expected = whole.feed(DIAGNOSTICS);
        let mut worker = InfoWorker::new();
        let mut reports = worker.feed(&DIAGNOSTICS[..cut]);
        for byte in &DIAGNOSTICS[cut..] {
            reports.extend(worker.on_byte(*byte));
        }
        assert_eq!(reports, expected);
        assert_eq!(worker.finish(), whole.finish());
    }
}

#[test]
fn worker_goes_on_after_an_error() {
    let mut worker = InfoWorker::new();
    let reports = worker.feed(b"Output #1, to 'x':\n Stream #0: Video: 1x1\n Stream #1: Video: 4x3\n");
    assert_eq!(reports.len(), 2);
    assert_eq!(
        reports[0],
        Err(ParseError {
            context: ParseContext::Output(1, "x".to_string()),
            line: " Stream #0: Video: 1x1".to_string(),
            reason: "Stream 0 didn't match Output".to_string(),
        })
    );
    assert_eq!(
        reports[1],
        Ok(VideoInfo::Stream(StreamInfo::Output {
            to: "x".to_string(),
            stream: Stream { num: 1, width: 4, height: 3, fps: None },
        }))
    );
    assert_eq!(worker.finish(), StreamInfoTerm::Final(String::new()));
}

#[test]
fn streams_and_errors_must_reach_the_driver() {
    assert_eq!(QUEUE_CAPACITY, 2);
    let info = match input_stream() {
        VideoInfo::Stream(info) => info,
        _ => unreachable!(),
    };
    assert_eq!(route(&Ok(input_stream())), Some(Ok(StreamInfoTerm::Info(info))));
    let error = ParseError {
        context: ParseContext::Stateless,
        line: "frame=".to_string(),
        reason: "frame is no number".to_string(),
    };
    assert_eq!(route(&Err(error.clone())), Some(Err(error)));
    assert_eq!(route(&Ok(progress(1, "2"))), None);
    assert_eq!(route(&Ok(VideoInfo::Codec("[a] b".to_string()))), None);
}

#[test]
fn every_report_has_its_level() {
    assert_eq!(log_info_handler(&Ok(input_stream())), Level::Info);
    assert_eq!(log_info_handler(&Ok(output_stream())), Level::Info);
    assert_eq!(log_info_handler(&Ok(VideoInfo::Codec("[a] b".to_string()))), Level::Info);
    assert_eq!(log_info_handler(&Ok(progress(1, "2"))), Level::Debug);
    let error = ParseError {
        context: ParseContext::Stateless,
        line: "frame=".to_string(),
        reason: "frame is no number".to_string(),
    };
    assert_eq!(log_info_handler(&Err(error)), Level::Error);
}
