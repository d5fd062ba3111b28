//! The parser against the grammar written with `str`'s own methods, on
//! lines made of the grammar's words in every order.

use ff_video::parse::{
    FrameUpdate, InfoParser, ParseContext, ParseError, Stream, StreamInfo, VideoInfo,
};

fn refused(
    context: &ParseContext,
    line: &str,
    reason: String,
) -> (ParseContext, Result<Option<VideoInfo>, ParseError>) {
    let error = ParseError { context: context.clone(), line: line.to_string(), reason };
    (context.clone(), Err(error))
}

fn header(
    context: &ParseContext,
    line: &str,
    is_input: bool,
    rest: &str,
) -> (ParseContext, Result<Option<VideoInfo>, ParseError>) {
    let pieces: Vec<&str> = rest.split(',').collect();
    let num = match pieces[0].trim().parse::<u32>() {
        Ok(num) => num,
        Err(e) => return refused(context, line, format!("# not a number but {:?}", e)),
    };
    if pieces.len() < 2 {
        return refused(context, line, "no last stream element (from or to)".to_string());
    }
    let named = pieces[pieces.len() - 1].trim();
    let named = named.strip_prefix(if is_input { "from '" } else { "to '" }).unwrap_or(named);
    let named = named.strip_suffix("':").unwrap_or(named);
    let opened = if is_input {
        ParseContext::Input(num, named.to_string())
    } else {
        ParseContext::Output(num, named.to_string())
    };
    (opened, Ok(None))
}

fn size(word: &str) -> Option<(u32, u32)> {
    let (width, tail) = word.split_once('x')?;
    let height = tail.split(' ').next().unwrap();
    match (width.parse::<u32>(), height.parse::<u32>()) {
        (Ok(w), Ok(h)) if w > 0 && h > 0 => Some((w, h)),
        _ => None,
    }
}

fn stream(
    context: &ParseContext,
    line: &str,
    body: &str,
) -> (ParseContext, Result<Option<VideoInfo>, ParseError>) {
    let (is_input, block, endpoint) = match context {
        ParseContext::Input(num, from) => (true, *num, from.clone()),
        ParseContext::Output(num, to) => (false, *num, to.clone()),
        ParseContext::Stateless => unreachable!(),
    };
    let mut pieces = body.split(':');
    let num = match pieces.next().unwrap().parse::<u32>() {
        Ok(num) => num,
        Err(e) => return refused(context, line, format!("Stream # not a number {:?}", e)),
    };
    if num != block {
        return refused(context, line, format!("Stream {} didn't match Output", num));
    }
    let mut is_video = false;
    let mut fields: Vec<&str> = Vec::new();
    for piece in pieces {
        is_video = is_video || piece.trim() == "Video";
        if is_video {
            fields.extend(piece.split(','));
        }
    }
    if !is_video {
        return (context.clone(), Ok(None));
    }
    let mut dims = None;
    let mut fps: Option<String> = None;
    let mut rates_valid = true;
    for field in fields {
        let word = field.trim();
        if word.ends_with(" fps") {
            let rate = word.trim_end_matches(" fps");
            rates_valid = rates_valid && rate.parse::<f32>().is_ok();
            fps = Some(rate.to_string());
        } else if let Some(found) = size(word) {
            dims = Some(found);
        }
    }
    if !rates_valid {
        return refused(context, line, "fps not a number".to_string());
    }
    match dims {
        None => {
            refused(context, line, "didn't find <width>x<height> in video stream".to_string())
        }
        Some((width, height)) => {
            let stream = Stream { num, width, height, fps };
            let info = if is_input {
                StreamInfo::Input { from: endpoint, stream }
            } else {
                StreamInfo::Output { to: endpoint, stream }
            };
            (ParseContext::Stateless, Ok(Some(VideoInfo::Stream(info))))
        }
    }
}

fn progress(
    context: &ParseContext,
    line: &str,
    report: &str,
) -> (ParseContext, Result<Option<VideoInfo>, ParseError>) {
    let report = report.trim();
    let (token, mut rest) = report.split_once(' ').unwrap_or((report, ""));
    let frame = match token.trim().parse::<u64>() {
        Ok(frame) => frame,
        Err(_) => return refused(context, line, "frame is no number".to_string()),
    };
    let (mut fps, mut dup, mut drop) = (None, None, None);
    while let Some((key, tail)) = rest.split_once('=') {
        match tail.trim_start().split_once(' ') {
            Some((value, behind)) => {
                match key {
                    "fps" => fps = value.parse::<f32>().ok().map(|_| value.to_string()),
                    "dup" => dup = value.parse::<u32>().ok(),
                    "drop" => drop = value.parse::<u32>().ok(),
                    _ => {}
                }
                rest = behind;
            }
            None => rest = tail,
        }
    }
    (context.clone(), Ok(Some(VideoInfo::Frame(FrameUpdate { frame, fps, dup, drop }))))
}

/// What a line means, said with the methods of `str`.
fn expected(
    context: &ParseContext,
    line: &str,
) -> (ParseContext, Result<Option<VideoInfo>, ParseError>) {
    if let Some(rest) = line.strip_prefix("Input #") {
        return header(context, line, true, rest);
    }
    if let Some(rest) = line.strip_prefix("Output #") {
        return header(context, line, false, rest);
    }
    if line.starts_with('[') && line.contains(']') {
        return (context.clone(), Ok(Some(VideoInfo::Codec(line.to_string()))));
    }
    let word = line.trim();
    let report = word.strip_prefix("frame=");
    if line.trim_start().len() == line.len() && report.is_none() {
        return (ParseContext::Stateless, Ok(None));
    }
    if *context != ParseContext::Stateless {
        if let Some(body) = word.strip_prefix("Stream #") {
            return stream(context, line, body);
        }
    }
    match report {
        Some(report) => progress(context, line, report),
        None => (context.clone(), Ok(None)),
    }
}

const WORDS: [&str; 48] = [
    "Input #", "Output #", "Stream #", "frame=", " ", "  ", "\t", ",", ":", "x", "0", "1", "7",
    "42", "007", "4294967295", "4294967296", "18446744073709551615", "18446744073709551616",
    " fps", "fps=", "dup=", "drop=", "q=", "Video", " Video", "Audio", "'", "from '", "to '",
    "':", "[", "]", "+", "-", ".", "e", "E", "inf", "nan", "infinity", "=", "\u{a0}",
    "\u{e9}", "\u{3000}", "\r", "kb/s", "pipe:",
];

/// A line of up to `longest` words, chosen by a linear congruential generator.
fn line_from(state: &mut u64, longest: u64) -> String {
    let mut next = || {
        *state = state.wrapping_mul(6364136223846793005).wrapping_add(1442695040888963407);
        *state >> 33
    };
    let count = next() % (longest + 1);
    let mut line = String::new();
    for _ in 0..count {
        line.push_str(WORDS[(next() % WORDS.len() as u64) as usize]);
    }
    line
}

fn agree_on(seed: u64, lines: usize, longest: u64, opener: &str) {
    let mut state = seed;
    let mut parser = InfoParser::default();
    let mut context = ParseContext::Stateless;
    for n in 0..lines {
        let line = if n % 3 == 0 && !opener.is_empty() {
            format!("{}{}", opener, line_from(&mut state, longest))
        } else {
            line_from(&mut state, longest)
        };
        let (next, result) = expected(&context, &line);
        assert_eq!(parser.push(&line), result, "line {:?} in {:?}", line, context);
        assert_eq!(parser.context(), &next, "after {:?} in {:?}", line, context);
        context = next;
    }
}

#[test]
fn parser_agrees_with_str_methods_on_any_line() {
    agree_on(1, 30_000, 10, "");
    agree_on(2, 10_000, 3, "");
}

#[test]
fn parser_agrees_with_str_methods_on_headers() {
    agree_on(3, 15_000, 8, "Input #");
    agree_on(4, 15_000, 8, "Output #1,");
}

#[test]
fn parser_agrees_with_str_methods_inside_blocks() {
    for seed in 5..15 {
        let mut state: u64 = seed;
        for _ in 0..1500 {
            for opener in ["Input #0, from 'a':", "Output #42, to 'b':"] {
                let mut parser = InfoParser::default();
                assert_eq!(parser.push(opener), Ok(None));
                let (context, _) = expected(&ParseContext::Stateless, opener);
                let line = format!(" Stream #{}", line_from(&mut state, 12));
                let (next, result) = expected(&context, &line);
                assert_eq!(parser.push(&line), result, "line {:?}", line);
                assert_eq!(parser.context(), &next, "after {:?}", line);
                let video = format!("\tStream #0: Video: {}", line_from(&mut state, 12));
                let mut parser = InfoParser::default();
                assert_eq!(parser.push(opener), Ok(None));
                let (next, result) = expected(&context, &video);
                assert_eq!(parser.push(&video), result, "line {:?}", video);
                assert_eq!(parser.context(), &next, "after {:?}", video);
            }
        }
    }
}

#[test]
fn parser_agrees_with_str_methods_on_progress() {
    agree_on(16, 20_000, 10, "frame=");
    agree_on(17, 20_000, 10, " frame= 12 ");
}
