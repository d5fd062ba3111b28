//! What holds of the parser and of the driver's decisions for every input.

use vstd::prelude::*;

use crate::decoder::{
    announced, await_output, ending, explanation, quit_failure, read_failure, MessageView, WaitEnd,
};
use crate::error::{IoFailureView, IoKind, VideoProcErrorView};
use crate::grammar::{
    assign, dims_of, endpoint_quote, frame_token, header_step, header_tag, is_codec, is_header,
    is_progress, is_stream, is_top_level, last_dims, last_rate, parse_line, parse_lines,
    progress_step, rate_is_valid, rate_of, rates_valid, refused, silent, size_in, stream_pieces, stream_step,
    tally_of, video_fields, ContextView, Run, Step, StreamView, Tally, VideoInfoView,
};
use crate::lines::{lossy_texts, split_lines, Lines};
use crate::number::{
    decimal, is_digit, is_float, lemma_decimal, lemma_unsigned_is_bounded,
    lemma_unsigned_of_decimal, unsigned, IntError,
};
use crate::text::{
    after, all_space, before, ends_with, is_space, lemma_first_index, lemma_first_index_at_joint,
    lemma_split_first, lemma_split_last, lemma_split_of_one_piece, lemma_trim_end_after_word,
    lemma_trim_end_is_prefix, lemma_trim_keeps_first_word, lemma_trim_of_padded,
    lemma_trim_start_of_indented, occurs, split, starts_with, trim, trim_end, trim_end_matches,
    trim_start,
    without_prefix, without_suffix,
};
use crate::worker::{after_bytes, bytes_reports, WorkerView};

verus! {

// Headers

/// A header as `ffmpeg` writes it: the tag, the index, any list that
/// begins with a comma, and after a last comma the quoted endpoint with a
/// colon behind it.
pub open spec fn header_text(
    is_input: bool,
    index: nat,
    list: Seq<char>,
    lead: Seq<char>,
    endpoint: Seq<char>,
) -> Seq<char> {
    header_tag(is_input) + decimal(index) + list + seq![','] + lead + endpoint_quote(is_input)
        + endpoint + "':"@
}

/// A line that begins with the tag of a header is a header of that side.
proof fn lemma_tag_makes_a_header(is_input: bool, rest: Seq<char>)
    ensures
        is_header(header_tag(is_input) + rest),
        starts_with(header_tag(is_input) + rest, "Input #"@) == is_input,
        without_prefix(header_tag(is_input) + rest, header_tag(is_input)) == rest,
{
    reveal_strlit("Input #");
    reveal_strlit("Output #");
    let tag = header_tag(is_input);
    let line = tag + rest;
    assert(line.take(tag.len() as int) =~= tag);
    assert(line.skip(tag.len() as int) =~= rest);
    assert(line[0] == tag[0]);
    if !is_input && starts_with(line, "Input #"@) {
        assert(line.take("Input #"@.len() as int)[0] == line[0]);
    }
}

/// The pieces of what follows the tag of a header: the index comes first,
/// and what follows the last comma comes last.
proof fn lemma_header_pieces(index: nat, list: Seq<char>, last: Seq<char>)
    requires
        list.len() == 0 || list[0] == ',',
        forall|i: int| 0 <= i < last.len() ==> last[i] != ',',
    ensures
        split(decimal(index) + list + seq![','] + last, ',').len() >= 2,
        split(decimal(index) + list + seq![','] + last, ',')[0] == decimal(index),
        split(decimal(index) + list + seq![','] + last, ',').last() == last,
{
    let digits = decimal(index);
    let rest = digits + list + seq![','] + last;
    let behind = list + seq![','] + last;
    lemma_decimal(index);
    assert(rest =~= digits + behind);
    assert(behind[0] == ',');
    assert forall|i: int| 0 <= i < digits.len() implies digits[i] != ',' by {
        lemma_digit_is_plain(digits[i]);
    }
    lemma_first_index_at_joint(digits, behind, ',');
    lemma_split_first(rest, ',');
    assert(rest.take(digits.len() as int) =~= digits);
    assert(rest =~= (digits + list) + seq![','] + last);
    lemma_split_last(digits + list, last, ',');
    lemma_split_of_one_piece(last, ',');
}

/// The last piece of a header holds no comma where its endpoint holds none.
proof fn lemma_last_piece_has_no_comma(is_input: bool, lead: Seq<char>, endpoint: Seq<char>)
    requires
        all_space(lead),
        forall|i: int| 0 <= i < endpoint.len() ==> endpoint[i] != ',',
    ensures
        forall|i: int|
            0 <= i < (lead + endpoint_quote(is_input) + endpoint + "':"@).len() ==> (lead
                + endpoint_quote(is_input) + endpoint + "':"@)[i] != ',',
{
    reveal_strlit("from '");
    reveal_strlit("to '");
    reveal_strlit("':");
    let quote = endpoint_quote(is_input);
    let close = "':"@;
    let last = lead + quote + endpoint + close;
    assert forall|i: int| 0 <= i < last.len() implies last[i] != ',' by {
        if i < lead.len() {
            assert(last[i] == lead[i]);
            lemma_space_is_no_comma(lead[i]);
        } else if i < lead.len() + quote.len() {
            assert(last[i] == quote[i - lead.len()]);
        } else if i < lead.len() + quote.len() + endpoint.len() {
            assert(last[i] == endpoint[i - lead.len() - quote.len()]);
        } else {
            assert(last[i] == close[i - lead.len() - quote.len() - endpoint.len()]);
        }
    }
}

/// The endpoint of a header is what stands between the opening words and
/// the closing quote and colon of its last piece.
proof fn lemma_endpoint_is_unquoted(is_input: bool, lead: Seq<char>, endpoint: Seq<char>)
    requires
        all_space(lead),
    ensures
        without_suffix(
            without_prefix(
                trim(lead + endpoint_quote(is_input) + endpoint + "':"@),
                endpoint_quote(is_input),
            ),
            "':"@,
        ) == endpoint,
{
    reveal_strlit("from '");
    reveal_strlit("to '");
    reveal_strlit("':");
    let quote = endpoint_quote(is_input);
    let close = "':"@;
    let named = quote + endpoint + close;
    assert(named[0] == quote[0]);
    assert(named.last() == close[1]);
    assert(lead + named + Seq::<char>::empty() =~= lead + quote + endpoint + close);
    lemma_trim_of_padded(lead, named, Seq::empty());
    assert(named.take(quote.len() as int) =~= quote);
    assert(named.skip(quote.len() as int) =~= endpoint + close);
    let quoted = endpoint + close;
    assert(quoted.skip(quoted.len() - close.len()) =~= close);
    assert(quoted.take(quoted.len() - close.len()) =~= endpoint);
}

/// A header opens the block of its side with its index and its endpoint,
/// unquoted, in every block, and reports nothing.
pub proof fn lemma_header_opens_its_block(
    context: ContextView,
    is_input: bool,
    index: nat,
    list: Seq<char>,
    lead: Seq<char>,
    endpoint: Seq<char>,
)
    requires
        index <= u32::MAX,
        list.len() == 0 || list[0] == ',',
        all_space(lead),
        forall|i: int| 0 <= i < endpoint.len() ==> endpoint[i] != ',',
    ensures
        parse_line(context, header_text(is_input, index, list, lead, endpoint)) == (Step {
            context: if is_input {
                ContextView::Input(index as u32, endpoint)
            } else {
                ContextView::Output(index as u32, endpoint)
            },
            result: Ok(None),
        }),
{
    let tag = header_tag(is_input);
    let digits = decimal(index);
    let line = header_text(is_input, index, list, lead, endpoint);
    let last = lead + endpoint_quote(is_input) + endpoint + "':"@;
    let rest = digits + list + seq![','] + last;
    assert(line =~= tag + rest);
    lemma_tag_makes_a_header(is_input, rest);
    lemma_last_piece_has_no_comma(is_input, lead, endpoint);
    lemma_header_pieces(index, list, last);
    lemma_endpoint_is_unquoted(is_input, lead, endpoint);
    lemma_decimal(index);
    lemma_digit_is_plain(digits[0]);
    lemma_digit_is_plain(digits.last());
    assert(Seq::<char>::empty() + digits + Seq::<char>::empty() =~= digits);
    lemma_trim_of_padded(Seq::empty(), digits, Seq::empty());
    lemma_unsigned_of_decimal(index, u32::MAX as nat);
    assert(parse_line(context, line) == header_step(context, line));
}

/// A header never reports an event: it opens a block, or it is refused and
/// the block stays as it was.
pub proof fn lemma_header_reports_nothing(context: ContextView, line: Seq<char>)
    requires
        is_header(line),
    ensures
        !(parse_line(context, line).result matches Ok(Some(_))),
        parse_line(context, line).result is Ok ==> !(parse_line(
            context,
            line,
        ).context is Stateless),
        parse_line(context, line).result is Err ==> parse_line(context, line).context == context,
{
}

// Codec notices and sections

/// A codec notice is reported as it stands, in every block, and leaves the
/// block as it was.
pub proof fn lemma_codec_notice_is_reported(context: ContextView, line: Seq<char>)
    requires
        is_codec(line),
    ensures
        parse_line(context, line) == (Step {
            context,
            result: Ok(Some(VideoInfoView::Codec(line))),
        }),
{
    reveal_strlit("Input #");
    reveal_strlit("Output #");
    if starts_with(line, "Input #"@) {
        assert(line.take("Input #"@.len() as int)[0] == line[0]);
    }
    if starts_with(line, "Output #"@) {
        assert(line.take("Output #"@.len() as int)[0] == line[0]);
    }
}

/// A line that begins a section of its own, and is neither a header, a
/// codec notice nor a progress line, closes the block and says nothing.
pub proof fn lemma_new_section_closes_the_block(context: ContextView, line: Seq<char>)
    requires
        is_top_level(line),
        !is_header(line),
        !is_codec(line),
        !is_progress(line),
    ensures
        parse_line(context, line) == silent(ContextView::Stateless),
{
}

/// Outside any block, only codec notices and progress lines report
/// anything, and only headers and progress lines can be refused.
pub proof fn lemma_outside_a_block(line: Seq<char>)
    ensures
        !is_header(line) && !is_codec(line) && !is_progress(line) ==> parse_line(
            ContextView::Stateless,
            line,
        ) == silent(ContextView::Stateless),
{
}

// Stream lines

/// A digit is neither white space nor a mark of the grammar.
proof fn lemma_digit_is_plain(c: char)
    requires
        is_digit(c),
    ensures
        !is_space(c),
        c != 'x',
        c != ' ',
        c != ',',
        c != ':',
{
}

/// White space is no comma.
proof fn lemma_space_is_no_comma(c: char)
    requires
        is_space(c),
    ensures
        c != ',',
{
}

/// A line that begins with white space is neither a header nor a codec notice.
proof fn lemma_indented_is_no_header(line: Seq<char>)
    requires
        !is_top_level(line),
    ensures
        !is_header(line),
        !is_codec(line),
{
    reveal_strlit("Input #");
    reveal_strlit("Output #");
    if starts_with(line, "Input #"@) {
        assert(line.take("Input #"@.len() as int)[0] == line[0]);
    }
    if starts_with(line, "Output #"@) {
        assert(line.take("Output #"@.len() as int)[0] == line[0]);
    }
}

/// The text `<width>x<height>` of a size.
pub open spec fn size_text(width: nat, height: nat) -> Seq<char> {
    decimal(width) + seq!['x'] + decimal(height)
}

/// A field that holds a size, with white space before it and, after it,
/// white space or a space and anything else, names exactly that size,
/// unless the field ends in ` fps` and so names a rate.
pub proof fn lemma_field_names_its_size(lead: Seq<char>, width: nat, height: nat, rest: Seq<char>)
    requires
        0 < width <= u32::MAX,
        0 < height <= u32::MAX,
        all_space(lead),
        all_space(rest) || rest[0] == ' ',
        !ends_with(trim(lead + size_text(width, height) + rest), " fps"@),
    ensures
        dims_of(lead + size_text(width, height) + rest) == Some((width as u32, height as u32)),
{
    let w = decimal(width);
    let h = decimal(height);
    let token = size_text(width, height);
    let field = lead + token + rest;
    lemma_decimal(width);
    lemma_decimal(height);
    lemma_digit_is_plain(w[0]);
    lemma_digit_is_plain(h.last());
    assert(token[0] == w[0]);
    assert(token.last() == h.last());
    // the word of the field
    assert(field =~= lead + (token + rest));
    assert((token + rest)[0] == token[0]);
    lemma_trim_start_of_indented(lead, token + rest);
    lemma_trim_end_after_word(token, rest);
    let tail = trim_end(rest);
    let word = token + tail;
    assert(trim(field) == word);
    // what follows the size is nothing, or begins with a space
    lemma_trim_end_is_prefix(rest);
    assert(tail.len() == 0 || tail[0] == ' ') by {
        if tail.len() > 0 {
            assert(!all_space(rest));
            assert(tail[0] == rest.take(tail.len() as int)[0]);
        }
    }
    // the width stands before the first `x`
    assert(word =~= w + (seq!['x'] + h + tail));
    assert forall|i: int| 0 <= i < w.len() implies w[i] != 'x' by {
        lemma_digit_is_plain(w[i]);
    }
    lemma_first_index_at_joint(w, seq!['x'] + h + tail, 'x');
    assert(before(word, 'x') =~= w);
    assert(after(word, 'x') =~= h + tail);
    // the height stands before the first space after it
    assert forall|i: int| 0 <= i < h.len() implies h[i] != ' ' by {
        lemma_digit_is_plain(h[i]);
    }
    lemma_first_index_at_joint(h, tail, ' ');
    assert(before(h + tail, ' ') =~= h);
    lemma_unsigned_of_decimal(width, u32::MAX as nat);
    lemma_unsigned_of_decimal(height, u32::MAX as nat);
    assert(size_in(word) == Some((width as u32, height as u32)));
}

/// The size of a video stream is the one that the last field with a size names.
pub proof fn lemma_last_size_wins(fields: Seq<Seq<char>>, at: int)
    requires
        0 <= at < fields.len(),
        dims_of(fields[at]) is Some,
        forall|j: int| at < j < fields.len() ==> dims_of(#[trigger] fields[j]) is None,
    ensures
        last_dims(fields) == dims_of(fields[at]),
    decreases fields.len(),
{
    if at < fields.len() - 1 {
        let shorter = fields.drop_last();
        assert(dims_of(fields[fields.len() - 1]) is None);
        assert(shorter[at] == fields[at]);
        assert forall|j: int| at < j < shorter.len() implies dims_of(
            #[trigger] shorter[j],
        ) is None by {
            assert(shorter[j] == fields[j]);
        }
        lemma_last_size_wins(shorter, at);
    }
}

/// Inside a block, an indented stream line of the block's index that
/// describes a video stream with valid rates announces the size that its
/// last field with a size names: where that field holds `<width>x<height>`
/// between white space, or with a space and anything else after it, the
/// announcement has exactly this width and height.
pub proof fn lemma_stream_line_yields_its_size(
    context: ContextView,
    line: Seq<char>,
    fields: Seq<Seq<char>>,
    at: int,
    lead: Seq<char>,
    width: nat,
    height: nat,
    rest: Seq<char>,
)
    requires
        !(context is Stateless),
        is_stream(line),
        !is_top_level(line),
        unsigned(stream_pieces(line)[0], u32::MAX as nat) == Ok::<nat, IntError>(
            context.num() as nat,
        ),
        video_fields(stream_pieces(line).skip(1)) == Some(fields),
        rates_valid(fields),
        0 <= at < fields.len(),
        fields[at] == lead + size_text(width, height) + rest,
        0 < width <= u32::MAX,
        0 < height <= u32::MAX,
        all_space(lead),
        all_space(rest) || rest[0] == ' ',
        !ends_with(trim(fields[at]), " fps"@),
        forall|j: int| at < j < fields.len() ==> dims_of(#[trigger] fields[j]) is None,
    ensures
        parse_line(context, line).context == ContextView::Stateless,
        parse_line(context, line).result matches Ok(Some(VideoInfoView::Stream(info)))
            && info.stream().num == context.num() && info.stream().width == width
            && info.stream().height == height,
{
    lemma_indented_is_no_header(line);
    lemma_field_names_its_size(lead, width, height, rest);
    lemma_last_size_wins(fields, at);
    assert(parse_line(context, line) == stream_step(context, line));
}

/// A field that holds a rate and ` fps` behind it, between white space,
/// names exactly that rate.
pub proof fn lemma_field_names_its_rate(lead: Seq<char>, rate: Seq<char>, trail: Seq<char>)
    requires
        all_space(lead),
        all_space(trail),
        rate.len() > 0,
        !is_space(rate[0]),
        !ends_with(rate, " fps"@),
    ensures
        rate_of(lead + rate + " fps"@ + trail) == Some(rate),
{
    reveal_strlit(" fps");
    let unit = " fps"@;
    let word = rate + unit;
    assert(word[0] == rate[0]);
    assert(word.last() == unit[3]);
    assert(lead + rate + unit + trail =~= lead + word + trail);
    lemma_trim_of_padded(lead, word, trail);
    assert(word.skip(word.len() - unit.len()) =~= unit);
    assert(word.take(word.len() - unit.len()) =~= rate);
    assert(trim_end_matches(rate, unit) == rate);
    assert(trim_end_matches(word, unit) == rate);
}

/// The rate of a video stream is the one that the last field with a rate names.
pub proof fn lemma_last_rate_wins(fields: Seq<Seq<char>>, at: int)
    requires
        0 <= at < fields.len(),
        rate_of(fields[at]) is Some,
        forall|j: int| at < j < fields.len() ==> rate_of(#[trigger] fields[j]) is None,
    ensures
        last_rate(fields) == rate_of(fields[at]),
    decreases fields.len(),
{
    if at < fields.len() - 1 {
        let shorter = fields.drop_last();
        assert(rate_of(fields[fields.len() - 1]) is None);
        assert(shorter[at] == fields[at]);
        assert forall|j: int| at < j < shorter.len() implies rate_of(
            #[trigger] shorter[j],
        ) is None by {
            assert(shorter[j] == fields[j]);
        }
        lemma_last_rate_wins(shorter, at);
    }
}

/// A video stream is announced with the rate that its last field with a
/// rate names.
pub proof fn lemma_stream_line_yields_its_rate(context: ContextView, line: Seq<char>)
    requires
        !(context is Stateless),
        is_stream(line),
        !is_top_level(line),
    ensures
        parse_line(context, line).result matches Ok(Some(VideoInfoView::Stream(info)))
            ==> video_fields(stream_pieces(line).skip(1)) matches Some(fields) && info.stream().fps
            == last_rate(fields),
{
    lemma_indented_is_no_header(line);
}

/// A video stream needs no rate: where no field names one, the stream is
/// announced without.
pub proof fn lemma_no_rate_named(fields: Seq<Seq<char>>)
    requires
        forall|i: int| 0 <= i < fields.len() ==> rate_of(#[trigger] fields[i]) is None,
    ensures
        last_rate(fields) is None,
        rates_valid(fields),
    decreases fields.len(),
{
    if fields.len() > 0 {
        let shorter = fields.drop_last();
        assert(rate_of(fields[fields.len() - 1]) is None);
        assert forall|i: int| 0 <= i < shorter.len() implies rate_of(
            #[trigger] shorter[i],
        ) is None by {
            assert(shorter[i] == fields[i]);
        }
        lemma_no_rate_named(shorter);
    }
}

/// Inside a block, an indented stream line whose index is a number other
/// than the block's is refused, whatever else it holds: no stream is
/// announced, and the block stays open.
pub proof fn lemma_index_mismatch_is_refused(context: ContextView, line: Seq<char>, index: nat)
    requires
        !(context is Stateless),
        is_stream(line),
        !is_top_level(line),
        unsigned(stream_pieces(line)[0], u32::MAX as nat) == Ok::<nat, IntError>(index),
        index != context.num(),
    ensures
        parse_line(context, line) == refused(
            context,
            line,
            "Stream "@ + decimal(index) + " didn't match Output"@,
        ),
        parse_line(context, line).result is Err,
{
    lemma_indented_is_no_header(line);
}

/// Inside a block, an indented line that names a stream by an index other
/// than the block's is refused, whatever follows the index behind a colon:
/// no stream is announced, and the block stays open.
pub proof fn lemma_foreign_stream_is_refused(
    context: ContextView,
    indent: Seq<char>,
    index: nat,
    rest: Seq<char>,
)
    requires
        !(context is Stateless),
        indent.len() > 0,
        all_space(indent),
        index <= u32::MAX,
        index != context.num(),
        rest.len() == 0 || rest[0] == ':',
    ensures
        parse_line(context, indent + "Stream #"@ + decimal(index) + rest) == refused(
            context,
            indent + "Stream #"@ + decimal(index) + rest,
            "Stream "@ + decimal(index) + " didn't match Output"@,
        ),
{
    reveal_strlit("Stream #");
    let tag = "Stream #"@;
    let digits = decimal(index);
    let line = indent + tag + digits + rest;
    let head = tag + digits;
    let tail = trim_end(rest);
    lemma_decimal(index);
    lemma_digit_is_plain(digits.last());
    assert(line[0] == indent[0]);
    assert(line =~= indent + (head + rest));
    assert((head + rest)[0] == tag[0]);
    assert(head.last() == digits.last());
    lemma_trim_start_of_indented(indent, head + rest);
    lemma_trim_end_after_word(head, rest);
    lemma_trim_end_is_prefix(rest);
    let word = head + tail;
    assert(trim(line) == word);
    assert(tail.len() == 0 || tail[0] == ':') by {
        if tail.len() > 0 {
            assert(tail[0] == rest.take(tail.len() as int)[0]);
        }
    }
    assert(word.take(tag.len() as int) =~= tag);
    assert(word.skip(tag.len() as int) =~= digits + tail);
    assert forall|i: int| 0 <= i < digits.len() implies digits[i] != ':' by {
        lemma_digit_is_plain(digits[i]);
    }
    lemma_first_index_at_joint(digits, tail, ':');
    lemma_split_first(digits + tail, ':');
    assert((digits + tail).take(digits.len() as int) =~= digits);
    assert(stream_pieces(line)[0] == digits);
    lemma_unsigned_of_decimal(index, u32::MAX as nat);
    lemma_index_mismatch_is_refused(context, line, index);
}

/// A size that fields name is positive.
proof fn lemma_last_dims_are_positive(fields: Seq<Seq<char>>)
    ensures
        last_dims(fields) matches Some(dims) ==> dims.0 > 0 && dims.1 > 0,
    decreases fields.len(),
{
    if fields.len() > 0 {
        let word = trim(fields.last());
        lemma_unsigned_is_bounded(before(word, 'x'), u32::MAX as nat);
        lemma_unsigned_is_bounded(before(after(word, 'x'), ' '), u32::MAX as nat);
        lemma_last_dims_are_positive(fields.drop_last());
    }
}

/// The rate that fields with valid rates name is valid.
proof fn lemma_last_rate_is_valid(fields: Seq<Seq<char>>)
    requires
        rates_valid(fields),
    ensures
        last_rate(fields) matches Some(rate) ==> is_float(rate),
    decreases fields.len(),
{
    if fields.len() > 0 {
        let shorter = fields.drop_last();
        assert(rate_is_valid(fields[fields.len() - 1]));
        assert forall|i: int| 0 <= i < shorter.len() implies rate_is_valid(
            #[trigger] shorter[i],
        ) by {
            assert(shorter[i] == fields[i]);
        }
        lemma_last_rate_is_valid(shorter);
    }
}

/// Every stream that a line announces has a positive width and height, and
/// a rate that is a floating-point literal where it has one.
pub proof fn lemma_announced_stream_is_well_formed(context: ContextView, line: Seq<char>)
    ensures
        parse_line(context, line).result matches Ok(Some(VideoInfoView::Stream(info)))
            ==> info.stream().wf(),
{
    if parse_line(context, line).result matches Ok(Some(VideoInfoView::Stream(info))) {
        assert(!is_header(line));
        assert(parse_line(context, line) == stream_step(context, line));
        let fields = video_fields(stream_pieces(line).skip(1))->0;
        lemma_last_dims_are_positive(fields);
        lemma_last_rate_is_valid(fields);
    }
}

// Progress lines

/// A progress line is neither a header nor a codec notice.
proof fn lemma_progress_is_no_header(line: Seq<char>)
    requires
        is_progress(line),
    ensures
        !is_header(line),
        !is_codec(line),
{
    reveal_strlit("Input #");
    reveal_strlit("Output #");
    reveal_strlit("frame=");
    let word = trim(line);
    assert(word.take("frame="@.len() as int)[0] == word[0]);
    if starts_with(line, "Input #"@) {
        assert(line.take("Input #"@.len() as int)[0] == line[0]);
        lemma_trim_keeps_first_word(line, "Input #"@);
        assert(word.take("Input #"@.len() as int)[0] == word[0]);
    }
    if starts_with(line, "Output #"@) {
        assert(line.take("Output #"@.len() as int)[0] == line[0]);
        lemma_trim_keeps_first_word(line, "Output #"@);
        assert(word.take("Output #"@.len() as int)[0] == word[0]);
    }
    if is_codec(line) {
        assert(trim_start(line) == line);
        lemma_trim_end_is_prefix(line);
        assert(word[0] == line.take(word.len() as int)[0]);
    }
}

/// A line is not both a stream line and a progress line.
proof fn lemma_stream_is_no_progress(line: Seq<char>)
    ensures
        !(is_stream(line) && is_progress(line)),
{
    reveal_strlit("Stream #");
    reveal_strlit("frame=");
    let word = trim(line);
    if is_stream(line) && is_progress(line) {
        assert(word.take("Stream #"@.len() as int)[0] == word[0]);
        assert(word.take("frame="@.len() as int)[0] == word[0]);
    }
}

/// A progress line whose frame counter is no number is refused, in every
/// block, and leaves the block as it was.
pub proof fn lemma_progress_needs_a_frame_number(context: ContextView, line: Seq<char>)
    requires
        is_progress(line),
        unsigned(frame_token(line), u64::MAX as nat) is Err,
    ensures
        parse_line(context, line) == refused(context, line, "frame is no number"@),
        parse_line(context, line).result is Err,
{
    lemma_progress_is_no_header(line);
    lemma_stream_is_no_progress(line);
}

/// Whether every counter that a tally holds is well formed.
pub open spec fn tally_is_sound(tally: Tally) -> bool {
    tally.fps matches Some(rate) ==> is_float(rate)
}

/// Reading pairs onto a tally never puts a malformed rate into it.
proof fn lemma_tally_stays_sound(rest: Seq<char>, tally: Tally)
    requires
        tally_is_sound(tally),
    ensures
        tally_is_sound(tally_of(rest, tally)),
    decreases rest.len(),
{
    if occurs(rest, '=') {
        let tail = after(rest, '=');
        let value_on = trim_start(tail);
        lemma_first_index(rest, '=');
        crate::text::lemma_trim_start_shorter(tail);
        lemma_first_index(value_on, ' ');
        if occurs(value_on, ' ') {
            lemma_tally_stays_sound(
                after(value_on, ' '),
                assign(tally, before(rest, '='), before(value_on, ' ')),
            );
        } else {
            lemma_tally_stays_sound(tail, tally);
        }
    }
}

/// A progress line whose frame counter is a number reports that number, in
/// every block, and leaves the block as it was. It is never refused:
/// whatever its other counters hold, a counter that is reported is well
/// formed, and one that is malformed is absent.
pub proof fn lemma_progress_reports_the_frame(context: ContextView, line: Seq<char>, frame: nat)
    requires
        is_progress(line),
        unsigned(frame_token(line), u64::MAX as nat) == Ok::<nat, IntError>(frame),
    ensures
        parse_line(context, line).context == context,
        parse_line(context, line).result matches Ok(Some(VideoInfoView::Frame(update)))
            && update.frame == frame && (update.fps matches Some(rate) ==> is_float(rate)),
{
    lemma_progress_is_no_header(line);
    lemma_stream_is_no_progress(line);
    lemma_unsigned_is_bounded(frame_token(line), u64::MAX as nat);
    assert(parse_line(context, line) == progress_step(context, line));
    let report = trim(crate::text::without_prefix(trim(line), "frame="@));
    let rest = if occurs(report, ' ') {
        after(report, ' ')
    } else {
        Seq::empty()
    };
    lemma_tally_stays_sound(rest, Tally::none());
}

/// A progress line as `ffmpeg` writes it reports the frame that it names,
/// in every block: `frame=`, the number after any white space, and then
/// nothing, or a space and anything else.
pub proof fn lemma_progress_line_reads_its_frame(
    context: ContextView,
    lead: Seq<char>,
    gap: Seq<char>,
    frame: nat,
    rest: Seq<char>,
)
    requires
        all_space(lead),
        all_space(gap),
        frame <= u64::MAX,
        rest.len() == 0 || rest[0] == ' ',
    ensures
        parse_line(context, lead + "frame="@ + gap + decimal(frame) + rest).context == context,
        parse_line(context, lead + "frame="@ + gap + decimal(frame) + rest).result matches Ok(
            Some(VideoInfoView::Frame(update)),
        ) && update.frame == frame,
{
    reveal_strlit("frame=");
    let tag = "frame="@;
    let digits = decimal(frame);
    let line = lead + tag + gap + digits + rest;
    lemma_decimal(frame);
    lemma_digit_is_plain(digits[0]);
    lemma_digit_is_plain(digits.last());
    // the line without the white space around it
    let head = tag + gap + digits;
    let tail = trim_end(rest);
    assert(line =~= lead + (head + rest));
    assert((head + rest)[0] == tag[0]);
    assert(head.last() == digits.last());
    lemma_trim_start_of_indented(lead, head + rest);
    lemma_trim_end_after_word(head, rest);
    lemma_trim_end_is_prefix(rest);
    let word = head + tail;
    assert(trim(line) == word);
    assert(tail.len() == 0 || tail[0] == ' ') by {
        if tail.len() > 0 {
            assert(tail[0] == rest.take(tail.len() as int)[0]);
        }
    }
    assert(word.take(tag.len() as int) =~= tag);
    assert(word.skip(tag.len() as int) =~= gap + (digits + tail));
    // what follows the tag, without the white space around it
    assert((digits + tail)[0] == digits[0]);
    lemma_trim_start_of_indented(gap, digits + tail);
    lemma_trim_end_after_word(digits, tail);
    assert(trim_end(tail) == tail);
    let report = digits + tail;
    assert(trim(without_prefix(word, tag)) == report);
    // the number stands before the first space
    assert forall|i: int| 0 <= i < digits.len() implies digits[i] != ' ' by {
        lemma_digit_is_plain(digits[i]);
    }
    lemma_first_index_at_joint(digits, tail, ' ');
    assert(before(report, ' ') =~= digits);
    assert(Seq::<char>::empty() + digits + Seq::<char>::empty() =~= digits);
    lemma_trim_of_padded(Seq::empty(), digits, Seq::empty());
    assert(frame_token(line) == digits);
    lemma_unsigned_of_decimal(frame, u64::MAX as nat);
    lemma_progress_reports_the_frame(context, line, frame);
}

/// A counter that is malformed becomes absent, whatever it was before.
pub proof fn lemma_malformed_counter_is_absent(tally: Tally, value: Seq<char>)
    ensures
        !is_float(value) ==> assign(tally, "fps"@, value).fps is None,
        unsigned(value, u32::MAX as nat) is Err ==> assign(tally, "dup"@, value).dup is None,
        unsigned(value, u32::MAX as nat) is Err ==> assign(tally, "drop"@, value).drop is None,
{
    reveal_strlit("fps");
    reveal_strlit("dup");
    reveal_strlit("drop");
    assert("dup"@[0] != "fps"@[0]);
    assert("drop"@[0] != "fps"@[0]);
    assert("drop"@.len() != "dup"@.len());
}

// Errors

/// An error never moves the parser: the block is as it was before the line.
pub proof fn lemma_refused_line_keeps_the_block(context: ContextView, line: Seq<char>)
    ensures
        parse_line(context, line).result matches Err(e) ==> parse_line(context, line).context
            == context && e.context == context && e.line == line,
{
}

// Reading in pieces

/// Bytes can be read in any number of pieces: the lines are the same, and
/// so is what is pending.
pub proof fn lemma_lines_in_pieces(pending: Seq<u8>, first: Seq<u8>, second: Seq<u8>)
    ensures
        split_lines(pending, first + second) == (Lines {
            pending: split_lines(split_lines(pending, first).pending, second).pending,
            lines: split_lines(pending, first).lines + split_lines(
                split_lines(pending, first).pending,
                second,
            ).lines,
        }),
    decreases second.len(),
{
    let after_first = split_lines(pending, first);
    if second.len() == 0 {
        assert(first + second =~= first);
        assert(after_first.lines + Seq::<Seq<u8>>::empty() =~= after_first.lines);
    } else {
        lemma_lines_in_pieces(pending, first, second.drop_last());
        assert((first + second).drop_last() =~= first + second.drop_last());
        assert((first + second).last() == second.last());
        let before = split_lines(after_first.pending, second.drop_last());
        assert(after_first.lines + before.lines.push(before.pending) =~= (after_first.lines
            + before.lines).push(before.pending));
    }
}

/// Lines can be read in any number of runs: the reports are the same, in
/// the same order, and so is the block at the end.
pub proof fn lemma_runs_in_pieces(
    context: ContextView,
    first: Seq<Seq<char>>,
    second: Seq<Seq<char>>,
)
    ensures
        parse_lines(context, first + second) == (Run {
            context: parse_lines(parse_lines(context, first).context, second).context,
            reports: parse_lines(context, first).reports + parse_lines(
                parse_lines(context, first).context,
                second,
            ).reports,
        }),
    decreases second.len(),
{
    let after_first = parse_lines(context, first);
    if second.len() == 0 {
        assert(first + second =~= first);
        assert(after_first.reports + Seq::empty() =~= after_first.reports);
    } else {
        lemma_runs_in_pieces(context, first, second.drop_last());
        assert((first + second).drop_last() =~= first + second.drop_last());
        assert((first + second).last() == second.last());
        let before = parse_lines(after_first.context, second.drop_last());
        let step = parse_line(before.context, second.last());
        assert(after_first.reports + (before.reports + crate::grammar::reported(step.result))
            =~= after_first.reports + before.reports + crate::grammar::reported(step.result));
    }
}

/// The worker can be fed in any number of pieces: what it reports is the
/// same, in the same order, and it ends in the same state.
pub proof fn lemma_worker_in_pieces(worker: WorkerView, first: Seq<u8>, second: Seq<u8>)
    ensures
        after_bytes(worker, first + second) == after_bytes(after_bytes(worker, first), second),
        bytes_reports(worker, first + second) == bytes_reports(worker, first) + bytes_reports(
            after_bytes(worker, first),
            second,
        ),
{
    lemma_lines_in_pieces(worker.pending, first, second);
    let one = split_lines(worker.pending, first);
    let two = split_lines(one.pending, second);
    assert(lossy_texts(one.lines + two.lines) =~= lossy_texts(one.lines) + lossy_texts(two.lines));
    lemma_runs_in_pieces(worker.context, lossy_texts(one.lines), lossy_texts(two.lines));
}

// The driver

/// Where no message announces an output stream, the start fails when the
/// wait ends, whatever the messages were; after a timeout the reason begins
/// with `timeout`, after a disconnect with `disconnected`.
pub proof fn lemma_no_output_no_decoder(
    messages: Seq<MessageView>,
    line: Option<Seq<char>>,
    end: WaitEnd,
)
    requires
        forall|i: int| 0 <= i < messages.len() ==> announced(#[trigger] messages[i]) is None,
    ensures
        await_output(messages, line, end) matches Err(why) && starts_with(
            why,
            match end {
                WaitEnd::Timeout => "timeout"@,
                WaitEnd::Disconnected => "disconnected"@,
            },
        ),
    decreases messages.len(),
{
    if messages.len() == 0 {
        let why = match end {
            WaitEnd::Timeout => "timeout"@,
            WaitEnd::Disconnected => "disconnected"@,
        };
        let text = explanation(end, line);
        assert(text.take(why.len() as int) =~= why);
    } else {
        let later = messages.drop_first();
        assert forall|i: int| 0 <= i < later.len() implies announced(
            #[trigger] later[i],
        ) is None by {
            assert(later[i] == messages[i + 1]);
        }
        lemma_no_output_no_decoder(
            later,
            crate::decoder::last_words(messages[0], line),
            end,
        );
    }
}

/// The start succeeds with the first output stream that is announced,
/// however the wait would have ended and whatever came before or after.
pub proof fn lemma_first_output_starts_the_decoder(
    messages: Seq<MessageView>,
    line: Option<Seq<char>>,
    end: WaitEnd,
    at: int,
)
    requires
        0 <= at < messages.len(),
        announced(messages[at]) is Some,
        forall|i: int| 0 <= i < at ==> announced(#[trigger] messages[i]) is None,
    ensures
        await_output(messages, line, end) == Ok::<StreamView, Seq<char>>(
            announced(messages[at])->0,
        ),
    decreases messages.len(),
{
    if at > 0 {
        let later = messages.drop_first();
        assert(announced(messages[0]) is None);
        assert(later[at - 1] == messages[at]);
        assert forall|i: int| 0 <= i < at - 1 implies announced(#[trigger] later[i]) is None by {
            assert(later[i] == messages[i + 1]);
        }
        lemma_first_output_starts_the_decoder(
            later,
            crate::decoder::last_words(messages[0], line),
            end,
            at - 1,
        );
    }
}

/// The shutdown goes on to drain the output and to wait for the child's
/// exit when the quit byte was written, and also when writing it met a
/// broken pipe. It stops only where the input pipe is missing or the write
/// failed in another way.
pub proof fn lemma_broken_pipe_does_not_stop_the_shutdown(quit: Option<Option<IoFailureView>>)
    ensures
        quit_failure(quit) is None <==> (quit matches Some(outcome) && (outcome matches Some(e)
            ==> e.kind == IoKind::BrokenPipe)),
{
}

/// Once the child was waited for and the worker joined, the shutdown
/// succeeds exactly when the child exited with a code of at most 0.
pub proof fn lemma_shutdown_succeeds_on_clean_exit(code: Option<i32>, joined: bool)
    ensures
        ending(code, joined) is Ok <==> joined && (code matches Some(c) && c <= 0),
        ending(code, true) matches Err(VideoProcErrorView::ExitCode(c)) ==> code == Some(c) && c
            > 0,
{
}

/// A frame read that the end of the stream cut short is reported as the
/// finish of the stream, and no other failure is.
pub proof fn lemma_stream_end_is_told_apart(e: IoFailureView)
    ensures
        read_failure(e) is FinishedNormally <==> e.kind == IoKind::UnexpectedEof,
        read_failure(e) is ExactReadError <==> e.kind != IoKind::UnexpectedEof,
        read_failure(e) is FinishedNormally || read_failure(e) is ExactReadError,
{
}

} // verus!
