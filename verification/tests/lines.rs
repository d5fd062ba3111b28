use ff_video::lines::FFMpegLineIter;

#[test]
fn lines_end_at_line_feed_and_at_carriage_return() {
    let mut lines = FFMpegLineIter::new();
    assert_eq!(
        lines.ffmpeg_lines(b"Input #0\n  Duration\rframe= 1\rframe= 2\r\nrest"),
        vec!["Input #0", "  Duration", "frame= 1", "frame= 2", ""]
    );
    assert_eq!(lines.state(), b"rest");
    assert_eq!(lines.last_line(), "rest");
}

#[test]
fn a_line_can_arrive_in_pieces() {
    let mut lines = FFMpegLineIter::new();
    assert_eq!(lines.ffmpeg_lines(b"fra"), Vec::<String>::new());
    assert_eq!(lines.state(), b"fra");
    assert_eq!(lines.ffmpeg_lines(b"me=7 q"), Vec::<String>::new());
    assert_eq!(lines.ffmpeg_lines(b"=1\rx"), vec!["frame=7 q=1"]);
    assert_eq!(lines.state(), b"x");
}

#[test]
fn push_returns_the_line_that_a_break_ends() {
    let mut lines = FFMpegLineIter::new();
    assert_eq!(lines.push(b'a'), None);
    assert_eq!(lines.push(b'b'), None);
    assert_eq!(lines.state(), b"ab");
    assert_eq!(lines.push(b'\r'), Some("ab".to_string()));
    assert_eq!(lines.state(), b"");
    assert_eq!(lines.push(b'\n'), Some(String::new()));
}

#[test]
fn invalid_bytes_are_replaced_not_refused() {
    let mut lines = FFMpegLineIter::new();
    assert_eq!(lines.ffmpeg_lines(b"caf\xc3\xa9 \xff!\nta\xf0il"), vec!["caf\u{e9} \u{fffd}!"]);
    assert_eq!(lines.state(), b"ta\xf0il");
    assert_eq!(lines.last_line(), "ta\u{fffd}il");
}

#[test]
fn nothing_read_is_no_line() {
    let mut lines = FFMpegLineIter::new();
    assert_eq!(lines.ffmpeg_lines(b""), Vec::<String>::new());
    assert_eq!(lines.state(), b"");
    assert_eq!(lines.last_line(), "");
}
