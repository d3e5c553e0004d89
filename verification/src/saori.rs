//! The SAORI/1.0 protocol engine.
//!
//! A request text is parsed into a [`SaoriRequest`], answered, and the
//! answer written out as a response text. Each step is a function of its
//! input alone; the contracts state them over the views below.

use vstd::prelude::*;

pub mod implement;
pub mod laws;
pub mod parse;
pub mod serialize;

pub use parse::parse_request;
pub use serialize::make_response;

verus! {

/// What a request asks for.
#[derive(Clone, Copy, Debug, PartialEq, Eq, Structural)]
pub enum RequestType {
    /// A probe for the protocol version, answered without running anything.
    GetVersion,
    /// A call of the module's function with the arguments given.
    Execute,
}

/// How a request was answered; each stands for one status line.
#[derive(Clone, Copy, Debug, PartialEq, Eq, Structural)]
pub enum ResponseType {
    /// The request was answered: `200 OK`.
    OK,
    /// The request cannot be answered as it was made: `400 Bad Request`.
    BadRequest,
    /// The module failed over the request: `500 Internal Server Error`.
    InternalServerError,
}

/// Why a request text was turned away.
#[derive(Clone, Copy, Debug, PartialEq, Eq, Structural)]
pub enum ParseError {
    /// The first line names neither of the two commands.
    MalformedFirstLine,
}

/// A request as the host sent it.
#[derive(Clone, Debug, PartialEq, Eq)]
pub struct SaoriRequest {
    pub request_type: RequestType,
    /// The arguments by index. An index the host skipped holds the empty
    /// text.
    pub args: Vec<String>,
    pub security_level: String,
    pub sender: String,
    pub charset: String,
}

/// The answer to a request.
#[derive(Clone, Debug, PartialEq, Eq)]
pub struct SaoriResponse {
    pub response_type: ResponseType,
    /// Further results, written out as `Value0`, `Value1` and so on.
    pub values: Vec<String>,
    pub result: String,
}

/// The mathematical content of a [`SaoriRequest`].
pub struct RequestView {
    pub request_type: RequestType,
    pub args: Seq<Seq<char>>,
    pub security_level: Seq<char>,
    pub sender: Seq<char>,
    pub charset: Seq<char>,
}

/// The mathematical content of a [`SaoriResponse`].
pub struct ResponseView {
    pub response_type: ResponseType,
    pub values: Seq<Seq<char>>,
    pub result: Seq<char>,
}

/// The texts that a list of strings holds.
pub open spec fn texts(strings: Seq<String>) -> Seq<Seq<char>> {
    Seq::new(strings.len(), |i: int| strings[i]@)
}

impl View for SaoriRequest {
    type V = RequestView;

    open spec fn view(&self) -> RequestView {
        RequestView {
            request_type: self.request_type,
            args: texts(self.args@),
            security_level: self.security_level@,
            sender: self.sender@,
            charset: self.charset@,
        }
    }
}

impl View for SaoriResponse {
    type V = ResponseView;

    open spec fn view(&self) -> ResponseView {
        ResponseView {
            response_type: self.response_type,
            values: texts(self.values@),
            result: self.result@,
        }
    }
}

/// The answer to a version probe, on the wire: the status and the charset,
/// with neither a result line nor a value line.
pub open spec fn version_reply() -> Seq<char> {
    "SAORI/1.0 200 OK\r\nCharset: Shift_JIS\r\n\r\n"@
}

/// The answer to a malformed request, on the wire: the status and the
/// charset, with neither a result line nor a value line.
pub open spec fn malformed_reply() -> Seq<char> {
    "SAORI/1.0 400 Bad Request\r\nCharset: Shift_JIS\r\n\r\n"@
}

/// The acknowledgement of a version probe: all is well, and there is
/// neither a result nor a value.
pub open spec fn acknowledgement() -> ResponseView {
    ResponseView { response_type: ResponseType::OK, values: Seq::empty(), result: Seq::empty() }
}

/// The most characters that the response to a request is longer than the
/// request, where calls are answered by [`implement::request`].
pub const REPLY_OVERHEAD: usize = 80;

/// The response text for `input` where calls are answered by
/// [`implement::request`].
pub open spec fn reply(input: Seq<char>) -> Seq<char> {
    match parse::parse(input) {
        Err(_) => malformed_reply(),
        Ok(asked) => match asked.request_type {
            RequestType::GetVersion => version_reply(),
            RequestType::Execute => serialize::response_text(implement::answer(asked)),
        },
    }
}

/// Answers a parsed request. A version probe is acknowledged without a
/// word to `handler`; a call is handed to `handler`, whose answer is
/// returned as it is, whatever kind of answer it is.
pub fn dispatch<H>(asked: SaoriRequest, handler: H) -> (response: SaoriResponse) where
    H: Fn(SaoriRequest) -> SaoriResponse,

    requires
        asked.request_type == RequestType::Execute ==> call_requires(handler, (asked,)),
    ensures
        asked.request_type == RequestType::GetVersion ==> response@ == acknowledgement(),
        asked.request_type == RequestType::Execute ==> call_ensures(handler, (asked,), response),
{
    match asked.request_type {
        RequestType::GetVersion => {
            let response = SaoriResponse {
                response_type: ResponseType::OK,
                values: Vec::new(),
                result: String::new(),
            };
            assert(response@.values =~= Seq::empty());
            response
        },
        RequestType::Execute => handler(asked),
    }
}

/// Answers a request text, with calls answered by `handler`.
///
/// A malformed request and a version probe get their fixed texts, and
/// `handler` is not called for them. A call gets the text of what `handler`
/// answered to the parsed request.
pub fn request_with<H>(input: &str, handler: H) -> (text: String) where
    H: Fn(SaoriRequest) -> SaoriResponse,

    requires
        forall|call: SaoriRequest|
            call.request_type == RequestType::Execute ==> call_requires(handler, (call,)),
    ensures
        match parse::parse(input@) {
            Err(_) => text@ == malformed_reply(),
            Ok(asked) => match asked.request_type {
                RequestType::GetVersion => text@ == version_reply(),
                RequestType::Execute => exists|call: SaoriRequest, response: SaoriResponse|
                    call@ == asked && #[trigger] call_ensures(handler, (call,), response) && text@
                        == serialize::response_text(response@),
            },
        },
{
    match parse_request(input) {
        Err(_) => "SAORI/1.0 400 Bad Request\r\nCharset: Shift_JIS\r\n\r\n".to_owned(),
        Ok(asked) => match asked.request_type {
            RequestType::GetVersion => "SAORI/1.0 200 OK\r\nCharset: Shift_JIS\r\n\r\n".to_owned(),
            RequestType::Execute => {
                let response = dispatch(asked, handler);
                make_response(&response)
            },
        },
    }
}

/// Answers a request text, with calls answered by [`implement::request`].
pub fn request(input: &str) -> (text: String)
    ensures
        text@ == reply(input@),
{
    request_with(input, implement::request)
}

} // verus!
