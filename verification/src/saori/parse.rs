//! The request parser.
//!
//! A request is a sequence of lines separated by line breaks. The first
//! line names the command. After `EXECUTE SAORI` every further line is a
//! header, read in order; a line that is no known header is passed over.

use vstd::prelude::*;
use vstd::slice::slice_subrange;
use crate::saori::{ParseError, RequestType, RequestView, SaoriRequest, texts};
use crate::text::{
    decimal_value, digit_run, digits_end, has_prefix, lemma_digit_run, lemma_first_line_len,
    line_end, read_decimal, split_lines, starts_with, to_chars,
};

verus! {

/// A request of the given kind with no argument and every header empty.
pub open spec fn empty_request(request_type: RequestType) -> RequestView {
    RequestView {
        request_type,
        args: Seq::empty(),
        security_level: Seq::empty(),
        sender: Seq::empty(),
        charset: Seq::empty(),
    }
}

/// What one header line says.
pub enum Header {
    Argument { index: nat, body: Seq<char> },
    Charset(Seq<char>),
    Sender(Seq<char>),
    SecurityLevel(Seq<char>),
    Unknown,
}

/// Reads `line` as `Argument<N>: <body>`: the word, one or more ASCII
/// digits, a colon and a space; the body is the rest of the line, whatever
/// it holds. The index is the number that the digits write in decimal.
///
/// An argument list with slot `N` has `N + 1` entries, so an index from
/// `usize::MAX` on cannot be stored: such a line is no argument header.
pub open spec fn argument_header(line: Seq<char>) -> Option<(nat, Seq<char>)> {
    let rest = line.skip("Argument"@.len() as int);
    let n = digit_run(rest) as int;
    let index = decimal_value(rest.take(n));
    if {
        &&& starts_with(line, "Argument"@)
        &&& n > 0
        &&& starts_with(rest.skip(n), ": "@)
        &&& index < usize::MAX
    } {
        Some((index, rest.skip(n + ": "@.len())))
    } else {
        None
    }
}

/// What `line` says. The four forms are tried in this order, and the value
/// of a header is all that follows its key on the line.
pub open spec fn header_of(line: Seq<char>) -> Header {
    match argument_header(line) {
        Some((index, body)) => Header::Argument { index, body },
        None => if starts_with(line, "Charset: "@) {
            Header::Charset(line.skip("Charset: "@.len() as int))
        } else if starts_with(line, "Sender: "@) {
            Header::Sender(line.skip("Sender: "@.len() as int))
        } else if starts_with(line, "SecurityLevel: "@) {
            Header::SecurityLevel(line.skip("SecurityLevel: "@.len() as int))
        } else {
            Header::Unknown
        },
    }
}

/// The argument list with slot `index` set to `body`. The list grows to
/// hold the slot where it must, and the slots that this creates below
/// `index` are empty.
pub open spec fn with_argument(args: Seq<Seq<char>>, index: nat, body: Seq<char>) -> Seq<
    Seq<char>,
> {
    let len = if index < args.len() {
        args.len()
    } else {
        index + 1
    };
    Seq::new(
        len,
        |i: int|
            if i == index {
                body
            } else if i < args.len() {
                args[i]
            } else {
                Seq::empty()
            },
    )
}

/// The request after one more header line.
pub open spec fn read_header(request: RequestView, line: Seq<char>) -> RequestView {
    match header_of(line) {
        Header::Argument { index, body } => RequestView {
            args: with_argument(request.args, index, body),
            ..request
        },
        Header::Charset(value) => RequestView { charset: value, ..request },
        Header::Sender(value) => RequestView { sender: value, ..request },
        Header::SecurityLevel(value) => RequestView { security_level: value, ..request },
        Header::Unknown => request,
    }
}

/// The request after the header lines, read first to last: a later line
/// overrules an earlier one that set the same thing.
pub open spec fn read_headers(request: RequestView, lines: Seq<Seq<char>>) -> RequestView
    decreases lines.len(),
{
    if lines.len() == 0 {
        request
    } else {
        read_header(read_headers(request, lines.drop_last()), lines.last())
    }
}

/// What a request text means.
///
/// A first line that begins with `GET Version SAORI` is a version probe,
/// and nothing after it is read. One that begins with `EXECUTE SAORI` opens
/// a call, whose headers are all the lines that follow. Any other first
/// line, that of the empty text included, is malformed.
pub open spec fn parse(input: Seq<char>) -> Result<RequestView, ParseError> {
    let lines = split_lines(input);
    if starts_with(lines[0], "GET Version SAORI"@) {
        Ok(empty_request(RequestType::GetVersion))
    } else if starts_with(lines[0], "EXECUTE SAORI"@) {
        Ok(read_headers(empty_request(RequestType::Execute), lines.skip(1)))
    } else {
        Err(ParseError::MalformedFirstLine)
    }
}

/// Puts `body` into slot `index`, growing the list with empty texts where
/// the slot is not there yet.
fn set_argument(args: &mut Vec<String>, index: usize, body: String)
    requires
        index < usize::MAX,
    ensures
        texts(final(args)@) == with_argument(texts(old(args)@), index as nat, body@),
{
    if index >= args.len() {
        args.resize(index + 1, String::new());
    }
    args[index] = body;
    assert(texts(args@) =~= with_argument(texts(old(args)@), index as nat, body@));
}

/// Reads `line` as an argument header: its index, and where on the line
/// its body begins.
fn scan_argument(line: &[char]) -> (found: Option<(usize, usize)>)
    ensures
        match found {
            Some((index, body_at)) => body_at <= line@.len() && argument_header(line@) == Some(
                (index as nat, line@.skip(body_at as int)),
            ),
            None => argument_header(line@) is None,
        },
{
    if !has_prefix(line, "Argument") {
        return None;
    }
    let digits_at = "Argument".unicode_len();
    let colon_at = digits_end(line, digits_at);
    let ghost rest = line@.skip(digits_at as int);
    let ghost n = colon_at - digits_at;
    proof {
        lemma_digit_run(rest);
        assert(line@.subrange(colon_at as int, line@.len() as int) =~= rest.skip(n));
        assert(line@.subrange(digits_at as int, colon_at as int) =~= rest.take(n));
    }
    if colon_at == digits_at || !has_prefix(slice_subrange(line, colon_at, line.len()), ": ") {
        return None;
    }
    match read_decimal(slice_subrange(line, digits_at, colon_at)) {
        Some(index) => {
            if index < usize::MAX {
                let body_at = colon_at + ": ".unicode_len();
                assert(line@.skip(body_at as int) =~= rest.skip(n + ": "@.len()));
                Some((index, body_at))
            } else {
                None
            }
        },
        None => None,
    }
}

/// The value of the header `key` on the line that stands at
/// `input[from..from + line.len()]`: all that follows the key. `None` says
/// that the line does not begin with the key.
fn header_value(input: &str, from: usize, line: &[char], key: &str) -> (value: Option<String>)
    requires
        from + line@.len() <= input@.len() <= usize::MAX,
        line@ == input@.subrange(from as int, from + line@.len()),
    ensures
        match value {
            Some(value) => starts_with(line@, key@) && value@ == line@.skip(key@.len() as int),
            None => !starts_with(line@, key@),
        },
{
    if has_prefix(line, key) {
        let value_at = from + key.unicode_len();
        let value = input.substring_char(value_at, from + line.len()).to_owned();
        assert(value@ =~= line@.skip(key@.len() as int));
        Some(value)
    } else {
        None
    }
}

/// Reads the header line that stands at `input[from..from + line.len()]`
/// into `request`.
fn apply_header(request: &mut SaoriRequest, input: &str, from: usize, line: &[char])
    requires
        from + line@.len() <= input@.len() <= usize::MAX,
        line@ == input@.subrange(from as int, from + line@.len()),
    ensures
        final(request)@ == read_header(old(request)@, line@),
{
    if let Some((index, body_at)) = scan_argument(line) {
        let body = input.substring_char(from + body_at, from + line.len()).to_owned();
        assert(body@ =~= line@.skip(body_at as int));
        set_argument(&mut request.args, index, body);
    } else if let Some(value) = header_value(input, from, line, "Charset: ") {
        request.charset = value;
    } else if let Some(value) = header_value(input, from, line, "Sender: ") {
        request.sender = value;
    } else if let Some(value) = header_value(input, from, line, "SecurityLevel: ") {
        request.security_level = value;
    }
}

/// Parses a request text.
///
/// Succeeds exactly where the first line names a command, and then returns
/// the request that [`parse`] describes; fails with
/// [`ParseError::MalformedFirstLine`] everywhere else.
pub fn parse_request(input: &str) -> (parsed: Result<SaoriRequest, ParseError>)
    ensures
        match parsed {
            Ok(request) => parse(input@) == Ok::<RequestView, ParseError>(request@),
            Err(error) => parse(input@) == Err::<RequestView, ParseError>(error),
        },
{
    let chars = to_chars(input);
    let text = chars.as_slice();
    let len = text.len();
    let first_end = line_end(text, 0);
    let first = slice_subrange(text, 0, first_end);
    proof {
        assert(input@.skip(0) =~= input@);
        lemma_first_line_len(input@);
        assert(first@ =~= split_lines(input@)[0]);
    }
    if has_prefix(first, "GET Version SAORI") {
        let request = SaoriRequest {
            request_type: RequestType::GetVersion,
            args: Vec::new(),
            security_level: String::new(),
            sender: String::new(),
            charset: String::new(),
        };
        assert(request@.args =~= Seq::empty());
        Ok(request)
    } else if has_prefix(first, "EXECUTE SAORI") {
        let mut request = SaoriRequest {
            request_type: RequestType::Execute,
            args: Vec::new(),
            security_level: String::new(),
            sender: String::new(),
            charset: String::new(),
        };
        assert(request@.args =~= Seq::empty());
        // Where the line read last ends: at a line break, or at the end.
        let mut at = first_end;
        let ghost mut seen: Seq<Seq<char>> = Seq::empty();
        proof {
            if at < len {
                assert(split_lines(input@).skip(1) =~= split_lines(input@.skip(at + 2)));
            } else {
                assert(split_lines(input@).skip(1) =~= seen);
            }
        }
        while at < len
            invariant
                at <= len,
                len == input@.len(),
                text@ == input@,
                at < len ==> at + 2 <= len,
                at < len ==> split_lines(input@).skip(1) == seen + split_lines(
                    input@.skip(at + 2),
                ),
                at == len ==> split_lines(input@).skip(1) == seen,
                request@ == read_headers(empty_request(RequestType::Execute), seen),
            decreases len - at,
        {
            let from = at + 2;
            let to = line_end(text, from);
            let line = slice_subrange(text, from, to);
            apply_header(&mut request, input, from, line);
            proof {
                let rest = input@.skip(from as int);
                lemma_first_line_len(rest);
                assert(line@ =~= rest.take(to - from));
                assert(seen.push(line@).drop_last() =~= seen);
                if to < len {
                    assert(rest.skip(to - from + 2) =~= input@.skip(to + 2));
                    assert(seen + split_lines(rest) =~= seen.push(line@) + split_lines(
                        input@.skip(to + 2),
                    ));
                } else {
                    assert(line@ =~= rest);
                    assert(seen + split_lines(rest) =~= seen.push(line@));
                }
                seen = seen.push(line@);
            }
            at = to;
        }
        Ok(request)
    } else {
        Err(ParseError::MalformedFirstLine)
    }
}

} // verus!
