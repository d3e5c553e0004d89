//! What holds of every request and every response.
//!
//! The parser's laws are stated over slots: the places that a header line
//! can write to. The last line that writes to a slot decides what the
//! request holds there, and a slot that no line writes to keeps what it had,
//! which for a request fresh from the parser is the empty text. Whatever a
//! slot holds stands in the request text.
//!
//! The laws of the whole engine follow: what it answers depends on the
//! request text alone, is not much longer than the request, and is ASCII
//! where the request is.

use vstd::prelude::*;
use vstd::utf8::is_ascii_chars;
use crate::saori::parse::{
    argument_header, empty_request, header_of, parse, read_header, read_headers, Header,
};
use crate::saori::implement::answer;
use crate::saori::serialize::{
    charset_line, response_text, result_line, status_line, status_text, value_line, value_lines,
};
use crate::saori::{
    make_response, malformed_reply, reply, request, version_reply, RequestType, RequestView,
    ResponseType, ResponseView, SaoriResponse, REPLY_OVERHEAD,
};
use crate::text::{
    decimal_text, digit_run, lemma_ascii_concat, lemma_decimal_round_trip,
    lemma_decimal_text_is_ascii, lemma_digit_run, lemma_digit_run_of_numeral,
    lemma_line_is_piece, lemma_piece_is_smaller, lemma_piece_of_piece, lemma_skip_is_piece,
    piece_of, split_lines, starts_with,
};

verus! {

/// A place that a header line can write to.
pub enum Slot {
    Argument(nat),
    Charset,
    Sender,
    SecurityLevel,
}

/// The text that `header` writes to `slot`, where it writes there at all.
pub open spec fn written(header: Header, slot: Slot) -> Option<Seq<char>> {
    match (header, slot) {
        (Header::Argument { index, body }, Slot::Argument(i)) => if index == i {
            Some(body)
        } else {
            None
        },
        (Header::Charset(value), Slot::Charset) => Some(value),
        (Header::Sender(value), Slot::Sender) => Some(value),
        (Header::SecurityLevel(value), Slot::SecurityLevel) => Some(value),
        _ => None,
    }
}

/// The text that `request` holds in `slot`. An argument beyond the end of
/// the list counts as empty.
pub open spec fn held(request: RequestView, slot: Slot) -> Seq<char> {
    match slot {
        Slot::Argument(i) => if i < request.args.len() {
            request.args[i as int]
        } else {
            Seq::empty()
        },
        Slot::Charset => request.charset,
        Slot::Sender => request.sender,
        Slot::SecurityLevel => request.security_level,
    }
}

/// One header line changes the slot it writes to and no other.
pub proof fn lemma_read_header_slot(request: RequestView, line: Seq<char>, slot: Slot)
    ensures
        held(read_header(request, line), slot) == match written(header_of(line), slot) {
            Some(text) => text,
            None => held(request, slot),
        },
        read_header(request, line).request_type == request.request_type,
{
}

/// No line of `lines` from the one at `from` on writes to `slot`.
pub open spec fn unwritten_from(lines: Seq<Seq<char>>, slot: Slot, from: int) -> bool {
    forall|j: int| from <= j < lines.len() ==> written(header_of(#[trigger] lines[j]), slot) is None
}

/// A slot that no line writes to holds what it held before.
pub proof fn lemma_unwritten_slot_is_kept(
    request: RequestView,
    lines: Seq<Seq<char>>,
    slot: Slot,
)
    requires
        unwritten_from(lines, slot, 0),
    ensures
        held(read_headers(request, lines), slot) == held(request, slot),
    decreases lines.len(),
{
    if lines.len() > 0 {
        let before = lines.drop_last();
        assert forall|j: int| 0 <= j < before.len() implies written(
            header_of(#[trigger] before[j]),
            slot,
        ) is None by {
            assert(before[j] == lines[j]);
        }
        lemma_unwritten_slot_is_kept(request, before, slot);
        lemma_read_header_slot(read_headers(request, before), lines.last(), slot);
    }
}

/// The last write wins: a slot holds what the last line that writes to it
/// wrote, whatever earlier lines wrote there.
pub proof fn lemma_last_write_wins(
    request: RequestView,
    lines: Seq<Seq<char>>,
    slot: Slot,
    k: int,
)
    requires
        0 <= k < lines.len(),
        written(header_of(lines[k]), slot) is Some,
        unwritten_from(lines, slot, k + 1),
    ensures
        held(read_headers(request, lines), slot) == written(header_of(lines[k]), slot)->0,
    decreases lines.len(),
{
    let before = lines.drop_last();
    lemma_read_header_slot(read_headers(request, before), lines.last(), slot);
    if k < lines.len() - 1 {
        assert(before[k] == lines[k]);
        assert forall|j: int| k + 1 <= j < before.len() implies written(
            header_of(#[trigger] before[j]),
            slot,
        ) is None by {
            assert(before[j] == lines[j]);
        }
        lemma_last_write_wins(request, before, slot, k);
    }
}

/// The argument list is as long as the highest index written asks for, and
/// no longer: it reaches every index that a line wrote to, and where it
/// grew, its last slot is one that a line wrote to.
pub proof fn lemma_argument_count(request: RequestView, lines: Seq<Seq<char>>)
    ensures
        read_headers(request, lines).request_type == request.request_type,
        read_headers(request, lines).args.len() >= request.args.len(),
        forall|j: int|
            0 <= j < lines.len() ==> (#[trigger] argument_header(lines[j]) matches Some(
                (index, _),
            ) ==> index < read_headers(request, lines).args.len()),
        read_headers(request, lines).args.len() == request.args.len() || exists|j: int|
            0 <= j < lines.len() && (#[trigger] argument_header(lines[j]) matches Some(
                (index, _),
            ) && index + 1 == read_headers(request, lines).args.len()),
    decreases lines.len(),
{
    if lines.len() > 0 {
        let before = lines.drop_last();
        let last = lines.len() - 1;
        lemma_argument_count(request, before);
        let earlier = read_headers(request, before);
        let after = read_headers(request, lines);
        assert(after == read_header(earlier, lines[last]));
        assert forall|j: int| 0 <= j < lines.len() implies (#[trigger] argument_header(
            lines[j],
        ) matches Some((index, _)) ==> index < after.args.len()) by {
            if j < last {
                assert(before[j] == lines[j]);
            }
        }
        if after.args.len() != request.args.len() {
            if after.args.len() == earlier.args.len() {
                let j = choose|j: int|
                    0 <= j < before.len() && (#[trigger] argument_header(before[j]) matches Some(
                        (index, _),
                    ) && index + 1 == earlier.args.len());
                assert(before[j] == lines[j]);
            } else {
                assert(argument_header(lines[last]) is Some);
            }
        }
    }
}

/// What the parser makes of a call, slot by slot: the headers are the lines
/// after the first; a slot that none of them writes to is empty, and a slot
/// holds what the last of them that writes to it wrote.
pub proof fn lemma_parsed_slot(input: Seq<char>, slot: Slot)
    requires
        parse(input) is Ok,
        parse(input)->Ok_0.request_type == RequestType::Execute,
    ensures
        ({
            let parsed = parse(input)->Ok_0;
            let headers = split_lines(input).skip(1);
            &&& unwritten_from(headers, slot, 0) ==> held(parsed, slot) == Seq::<char>::empty()
            &&& forall|k: int|
                {
                    &&& 0 <= k < headers.len()
                    &&& written(header_of(#[trigger] headers[k]), slot) is Some
                    &&& unwritten_from(headers, slot, k + 1)
                } ==> held(parsed, slot) == written(header_of(headers[k]), slot)->0
        }),
{
    let start = empty_request(RequestType::Execute);
    let headers = split_lines(input).skip(1);
    assert(parse(input)->Ok_0 == read_headers(start, headers));
    if unwritten_from(headers, slot, 0) {
        lemma_unwritten_slot_is_kept(start, headers, slot);
    }
    assert forall|k: int|
        {
            &&& 0 <= k < headers.len()
            &&& written(header_of(#[trigger] headers[k]), slot) is Some
            &&& unwritten_from(headers, slot, k + 1)
        } implies held(read_headers(start, headers), slot) == written(
        header_of(headers[k]),
        slot,
    )->0 by {
        lemma_last_write_wins(start, headers, slot, k);
    }
}

/// The argument list of a parsed call is as long as its headers ask for:
/// empty where no header names an argument, and else one longer than the
/// highest index named.
pub proof fn lemma_parsed_argument_count(input: Seq<char>)
    requires
        parse(input) is Ok,
        parse(input)->Ok_0.request_type == RequestType::Execute,
    ensures
        ({
            let args = parse(input)->Ok_0.args;
            let headers = split_lines(input).skip(1);
            &&& forall|j: int|
                0 <= j < headers.len() ==> (#[trigger] argument_header(headers[j]) matches Some(
                    (index, _),
                ) ==> index < args.len())
            &&& args.len() == 0 || exists|j: int|
                0 <= j < headers.len() && (#[trigger] argument_header(headers[j]) matches Some(
                    (index, _),
                ) && index + 1 == args.len())
        }),
{
    let start = empty_request(RequestType::Execute);
    let headers = split_lines(input).skip(1);
    assert(parse(input)->Ok_0 == read_headers(start, headers));
    lemma_argument_count(start, headers);
}

/// What a header line writes stands on that line.
pub proof fn lemma_written_is_piece(line: Seq<char>, slot: Slot)
    ensures
        written(header_of(line), slot) matches Some(text) ==> piece_of(text, line),
{
    match header_of(line) {
        Header::Argument { index, body } => {
            let key = "Argument"@.len() as int;
            let digits = digit_run(line.skip(key)) as int;
            let body_at = key + digits + ": "@.len();
            lemma_digit_run(line.skip(key));
            assert(body =~= line.skip(body_at));
            lemma_skip_is_piece(line, body_at);
        },
        Header::Charset(_) => {
            lemma_skip_is_piece(line, "Charset: "@.len() as int);
        },
        Header::Sender(_) => {
            lemma_skip_is_piece(line, "Sender: "@.len() as int);
        },
        Header::SecurityLevel(_) => {
            lemma_skip_is_piece(line, "SecurityLevel: "@.len() as int);
        },
        Header::Unknown => {},
    }
}

/// Reading headers puts nothing into a request but what stands on the
/// lines read.
pub proof fn lemma_headers_keep_pieces(
    request: RequestView,
    lines: Seq<Seq<char>>,
    whole: Seq<char>,
    slot: Slot,
)
    requires
        piece_of(held(request, slot), whole),
        forall|j: int| 0 <= j < lines.len() ==> piece_of(#[trigger] lines[j], whole),
    ensures
        piece_of(held(read_headers(request, lines), slot), whole),
    decreases lines.len(),
{
    if lines.len() > 0 {
        let before = lines.drop_last();
        assert forall|j: int| 0 <= j < before.len() implies piece_of(
            #[trigger] before[j],
            whole,
        ) by {
            assert(before[j] == lines[j]);
        }
        lemma_headers_keep_pieces(request, before, whole, slot);
        let earlier = read_headers(request, before);
        lemma_read_header_slot(earlier, lines.last(), slot);
        lemma_written_is_piece(lines.last(), slot);
        if let Some(text) = written(header_of(lines.last()), slot) {
            assert(piece_of(lines[lines.len() - 1], whole));
            lemma_piece_of_piece(text, lines.last(), whole);
        }
    }
}

/// The parser makes no text up: whatever a parsed request holds in a slot
/// stands in the request text, character for character.
pub proof fn lemma_parsed_text_is_from_input(input: Seq<char>, slot: Slot)
    requires
        parse(input) is Ok,
    ensures
        piece_of(held(parse(input)->Ok_0, slot), input),
{
    let lines = split_lines(input);
    let nothing = input.subrange(0, 0);
    if starts_with(lines[0], "GET Version SAORI"@) {
        assert(held(empty_request(RequestType::GetVersion), slot) =~= nothing);
    } else {
        let start = empty_request(RequestType::Execute);
        let headers = lines.skip(1);
        assert(held(start, slot) =~= nothing);
        assert forall|j: int| 0 <= j < headers.len() implies piece_of(
            #[trigger] headers[j],
            input,
        ) by {
            lemma_line_is_piece(input, j + 1);
        }
        lemma_headers_keep_pieces(start, headers, input, slot);
    }
}

/// The parser reads the index as the writer numbers the values: a line made
/// of `Argument`, the numeral of `index`, a colon, a space and `body` is the
/// argument header for `index` with that body, whatever the body holds.
pub proof fn lemma_argument_header_written(index: nat, body: Seq<char>)
    requires
        index < usize::MAX,
    ensures
        argument_header("Argument"@ + decimal_text(index) + ": "@ + body) == Some((index, body)),
{
    reveal_strlit("Argument");
    reveal_strlit(": ");
    let numeral = decimal_text(index);
    let line = "Argument"@ + numeral + ": "@ + body;
    let rest = line.skip("Argument"@.len() as int);
    lemma_decimal_round_trip(index);
    assert(line.take("Argument"@.len() as int) =~= "Argument"@);
    assert(rest =~= numeral + (": "@ + body));
    lemma_digit_run_of_numeral(numeral, ": "@ + body);
    let n = numeral.len() as int;
    assert(rest.take(n) =~= numeral);
    assert(rest.skip(n) =~= ": "@ + body);
    assert(rest.skip(n).take(2) =~= ": "@);
    assert(rest.skip(n + 2) =~= body);
}

/// The two fixed replies are responses without a result line and without
/// values: the status line, the charset line and the empty line.
pub proof fn lemma_fixed_replies()
    ensures
        version_reply() == status_line(ResponseType::OK) + charset_line() + "\r\n"@,
        malformed_reply() == status_line(ResponseType::BadRequest) + charset_line() + "\r\n"@,
{
    reveal_strlit("SAORI/1.0 200 OK\r\nCharset: Shift_JIS\r\n\r\n");
    reveal_strlit("SAORI/1.0 400 Bad Request\r\nCharset: Shift_JIS\r\n\r\n");
    reveal_strlit("SAORI/1.0 ");
    reveal_strlit("200 OK");
    reveal_strlit("400 Bad Request");
    reveal_strlit("Charset: Shift_JIS\r\n");
    reveal_strlit("\r\n");
    assert(version_reply() =~= status_line(ResponseType::OK) + charset_line() + "\r\n"@);
    assert(malformed_reply() =~= status_line(ResponseType::BadRequest) + charset_line()
        + "\r\n"@);
}

/// The value lines of ASCII values are ASCII.
proof fn lemma_value_lines_are_ascii(values: Seq<Seq<char>>)
    requires
        forall|i: int| 0 <= i < values.len() ==> is_ascii_chars(#[trigger] values[i]),
    ensures
        is_ascii_chars(value_lines(values)),
    decreases values.len(),
{
    if values.len() > 0 {
        reveal_strlit("Value");
        reveal_strlit(": ");
        reveal_strlit("\r\n");
        let index = (values.len() - 1) as nat;
        let before = values.drop_last();
        assert forall|i: int| 0 <= i < before.len() implies is_ascii_chars(
            #[trigger] before[i],
        ) by {
            assert(before[i] == values[i]);
        }
        lemma_value_lines_are_ascii(before);
        lemma_decimal_text_is_ascii(index);
        assert(is_ascii_chars(values[values.len() - 1]));
        lemma_ascii_concat("Value"@, decimal_text(index));
        lemma_ascii_concat("Value"@ + decimal_text(index), ": "@);
        lemma_ascii_concat("Value"@ + decimal_text(index) + ": "@, values.last());
        lemma_ascii_concat("Value"@ + decimal_text(index) + ": "@ + values.last(), "\r\n"@);
        lemma_ascii_concat(value_lines(before), value_line(index, values.last()));
    }
}

/// The writer adds nothing outside ASCII: the text of a response whose
/// result and values are ASCII is ASCII.
pub proof fn lemma_response_text_is_ascii(response: ResponseView)
    requires
        is_ascii_chars(response.result),
        forall|i: int|
            0 <= i < response.values.len() ==> is_ascii_chars(#[trigger] response.values[i]),
    ensures
        is_ascii_chars(response_text(response)),
{
    reveal_strlit("SAORI/1.0 ");
    reveal_strlit("200 OK");
    reveal_strlit("400 Bad Request");
    reveal_strlit("500 Internal Server Error");
    reveal_strlit("Charset: Shift_JIS\r\n");
    reveal_strlit("Result: ");
    reveal_strlit("\r\n");
    let status = status_text(response.response_type);
    assert(is_ascii_chars(status));
    lemma_ascii_concat("SAORI/1.0 "@, status);
    lemma_ascii_concat("SAORI/1.0 "@ + status, "\r\n"@);
    lemma_ascii_concat("Result: "@, response.result);
    lemma_ascii_concat("Result: "@ + response.result, "\r\n"@);
    lemma_value_lines_are_ascii(response.values);
    let head = status_line(response.response_type) + charset_line();
    lemma_ascii_concat(status_line(response.response_type), charset_line());
    lemma_ascii_concat(head, result_line(response.result));
    lemma_ascii_concat(head + result_line(response.result), value_lines(response.values));
    lemma_ascii_concat(
        head + result_line(response.result) + value_lines(response.values),
        "\r\n"@,
    );
}

/// The response to a request is at most [`REPLY_OVERHEAD`] characters
/// longer than the request, and the response to an ASCII request is ASCII.
pub proof fn lemma_reply_is_bounded(input: Seq<char>)
    ensures
        reply(input).len() <= input.len() + REPLY_OVERHEAD,
        is_ascii_chars(input) ==> is_ascii_chars(reply(input)),
{
    reveal_strlit("SAORI/1.0 200 OK\r\nCharset: Shift_JIS\r\n\r\n");
    reveal_strlit("SAORI/1.0 400 Bad Request\r\nCharset: Shift_JIS\r\n\r\n");
    match parse(input) {
        Err(_) => {},
        Ok(asked) => {
            if asked.request_type == RequestType::Execute {
                let response = answer(asked);
                reveal_strlit("SAORI/1.0 ");
                reveal_strlit("200 OK");
                reveal_strlit("400 Bad Request");
                reveal_strlit("Charset: Shift_JIS\r\n");
                reveal_strlit("Result: ");
                reveal_strlit("\r\n");
                reveal_strlit("Value");
                reveal_strlit(": ");
                reveal_strlit("test1");
                reveal_strlit("test2");
                if asked.args.len() >= 1 {
                    lemma_parsed_text_is_from_input(input, Slot::Argument(0));
                    lemma_piece_is_smaller(asked.args[0], input);
                    let values = response.values;
                    assert(values.drop_last() =~= seq!["test1"@]);
                    assert(values.drop_last().drop_last() =~= Seq::<Seq<char>>::empty());
                    reveal_with_fuel(value_lines, 3);
                    assert(decimal_text(0).len() == 1);
                    assert(decimal_text(1).len() == 1);
                    assert(value_lines(values).len() == 30);
                } else {
                    assert(value_lines(response.values).len() == 0);
                }
                if is_ascii_chars(input) {
                    lemma_response_text_is_ascii(response);
                }
            }
        },
    }
}

/// Answering is a function of the request text: two runs of [`request`] on
/// the same text end with the same response text.
pub proof fn lemma_request_is_deterministic(
    first_input: &str,
    second_input: &str,
    first_output: String,
    second_output: String,
)
    requires
        first_input@ == second_input@,
        call_ensures(request, (first_input,), first_output),
        call_ensures(request, (second_input,), second_output),
    ensures
        first_output@ == second_output@,
{
}

/// Writing a response out twice gives the same text twice: nothing but
/// what the response holds decides what [`make_response`] returns.
pub proof fn lemma_make_response_is_repeatable(
    first_response: &SaoriResponse,
    second_response: &SaoriResponse,
    first_text: String,
    second_text: String,
)
    requires
        first_response@ == second_response@,
        call_ensures(make_response, (first_response,), first_text),
        call_ensures(make_response, (second_response,), second_text),
    ensures
        first_text@ == second_text@,
{
}

} // verus!
