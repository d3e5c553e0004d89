//! The response writer.
//!
//! A response text is a status line, the charset line, the result line, one
//! line for each value, and an empty line that ends it. Every line ends in a
//! line break.

use vstd::prelude::*;
use crate::saori::{ResponseType, ResponseView, SaoriResponse, texts};
use crate::text::{decimal_text, push_decimal};

verus! {

/// The status code and reason phrase of each kind of answer.
pub open spec fn status_text(response_type: ResponseType) -> Seq<char> {
    match response_type {
        ResponseType::OK => "200 OK"@,
        ResponseType::BadRequest => "400 Bad Request"@,
        ResponseType::InternalServerError => "500 Internal Server Error"@,
    }
}

/// The first line of a response.
pub open spec fn status_line(response_type: ResponseType) -> Seq<char> {
    "SAORI/1.0 "@ + status_text(response_type) + "\r\n"@
}

/// The line that names the encoding of the response. It is the same for
/// every response, whatever charset the request named.
pub open spec fn charset_line() -> Seq<char> {
    "Charset: Shift_JIS\r\n"@
}

/// The line that carries the result.
pub open spec fn result_line(result: Seq<char>) -> Seq<char> {
    "Result: "@ + result + "\r\n"@
}

/// The line that carries the value at `index`.
pub open spec fn value_line(index: nat, value: Seq<char>) -> Seq<char> {
    "Value"@ + decimal_text(index) + ": "@ + value + "\r\n"@
}

/// The lines of all the values, in order, numbered from 0.
pub open spec fn value_lines(values: Seq<Seq<char>>) -> Seq<char>
    decreases values.len(),
{
    if values.len() == 0 {
        Seq::empty()
    } else {
        value_lines(values.drop_last()) + value_line(
            (values.len() - 1) as nat,
            values.last(),
        )
    }
}

/// The text of a response.
pub open spec fn response_text(response: ResponseView) -> Seq<char> {
    status_line(response.response_type) + charset_line() + result_line(response.result)
        + value_lines(response.values) + "\r\n"@
}

/// Writes a response out. The result line is there for every kind of
/// response, with an empty result too.
pub fn make_response(input: &SaoriResponse) -> (text: String)
    ensures
        text@ == response_text(input@),
{
    let status = match input.response_type {
        ResponseType::OK => "200 OK",
        ResponseType::BadRequest => "400 Bad Request",
        ResponseType::InternalServerError => "500 Internal Server Error",
    };
    let mut response = String::new();
    response.append("SAORI/1.0 ");
    response.append(status);
    response.append("\r\n");
    response.append("Charset: Shift_JIS\r\n");
    response.append("Result: ");
    response.append(input.result.as_str());
    response.append("\r\n");
    let ghost head = status_line(input@.response_type) + charset_line() + result_line(
        input@.result,
    );
    let ghost values = input@.values;
    assert(response@ =~= head + value_lines(values.take(0)));
    let count = input.values.len();
    let mut index: usize = 0;
    while index < count
        invariant
            index <= count,
            count == input.values@.len(),
            values == texts(input.values@),
            response@ == head + value_lines(values.take(index as int)),
        decreases count - index,
    {
        let ghost before = response@;
        response.append("Value");
        push_decimal(&mut response, index);
        response.append(": ");
        response.append(input.values[index].as_str());
        response.append("\r\n");
        proof {
            let next = values.take(index + 1);
            assert(next.drop_last() =~= values.take(index as int));
            assert(response@ =~= before + value_line(index as nat, next.last()));
            assert(response@ =~= head + value_lines(next));
        }
        index += 1;
    }
    assert(values.take(count as int) =~= values);
    response.append("\r\n");
    assert(response@ =~= response_text(input@));
    response
}

} // verus!
