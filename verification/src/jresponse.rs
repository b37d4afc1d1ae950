use vstd::prelude::*;

verus! {

/// The outside type `serde_json::Error`, declared so that it can be carried; Verus sees nothing inside it.
#[verifier::external_type_specification]
#[verifier::external_body]
pub struct ExJsonError(serde_json::Error);

/// A JSON value, held as the JSON text that `serde_json` writes for it.
#[derive(Debug, Clone, PartialEq, Eq)]
pub struct JsonValue {
    pub text: String,
}

impl View for JsonValue {
    type V = Seq<char>;

    open spec fn view(&self) -> Seq<char> {
        self.text@
    }
}

/// The four hexadecimal digits, lower case, of a code below `0x100`, as JSON's
/// `\u` escape writes them.
pub open spec fn json_hex4(code: u32) -> Seq<char> {
    let hex = "0123456789abcdef"@;
    seq!['0', '0', hex[(code / 16) as int], hex[(code % 16) as int]]
}

/// How `serde_json` writes one character inside a JSON string: `"` and `\` and
/// the control characters below `0x20` are escaped, every other character is
/// written as it is.
pub open spec fn json_escaped_char(c: char) -> Seq<char> {
    if c == '"' {
        seq!['\\', '"']
    } else if c == '\\' {
        seq!['\\', '\\']
    } else if c == '\u{8}' {
        seq!['\\', 'b']
    } else if c == '\t' {
        seq!['\\', 't']
    } else if c == '\n' {
        seq!['\\', 'n']
    } else if c == '\u{c}' {
        seq!['\\', 'f']
    } else if c == '\r' {
        seq!['\\', 'r']
    } else if (c as u32) < 0x20 {
        seq!['\\', 'u'] + json_hex4(c as u32)
    } else {
        seq![c]
    }
}

/// The characters of `s`, each escaped as `json_escaped_char` says.
pub open spec fn json_escaped(s: Seq<char>) -> Seq<char>
    decreases s.len(),
{
    if s.len() == 0 {
        Seq::empty()
    } else {
        json_escaped_char(s[0]) + json_escaped(s.drop_first())
    }
}

/// The JSON string literal of `s`.
pub open spec fn json_quoted(s: Seq<char>) -> Seq<char> {
    seq!['"'] + json_escaped(s) + seq!['"']
}

/// Calls `serde_json::to_string` on a `&str`. Claimed: the call succeeds (the
/// crate writes a string through `format_escaped_str`, whose only failures are
/// the writer's, and the writer here is an in-memory buffer), and the text is
/// the JSON string literal of `s` as `json_quoted` spells it, following the
/// crate's `ESCAPE` table and `write_char_escape`.
#[verifier::external_body]
fn str_to_json_text(s: &str) -> (r: Result<String, serde_json::Error>)
    ensures
        r is Ok,
        r matches Ok(t) ==> t@ == json_quoted(s@),
{
    serde_json::to_string(s)
}

/// `resp` is the internal error that answers a failure with the text
/// `detail`: carrying `detail` as a JSON string when debugging, carrying nothing
/// otherwise.
pub open spec fn is_debug_error<R: ApiReply>(resp: JsonResponse<R>, http_debug: bool, detail: Seq<char>) -> bool {
    if http_debug {
        resp matches JsonResponse::InternalServerError(Some(v)) && v@ == json_quoted(detail)
    } else {
        resp == JsonResponse::<R>::InternalServerError(None)
    }
}

/// The reply of the built-in kind: a status text and optional JSON data.
#[derive(Debug)]
pub struct BasicReply {
    pub status: String,
    pub reply: Option<JsonValue>,
}

impl BasicReply {
    pub fn new(s: String, d: Option<JsonValue>) -> (r: BasicReply)
        ensures
            r.status == s,
            r.reply == d,
    {
        BasicReply { status: s, reply: d }
    }
}

/// A reply type that can stand for an error: a status text with optional data.
pub trait ApiReply: Sized {
    /// The reply that stands for an error with this status text and data.
    fn error(status: String, data: Option<JsonValue>) -> Self;
}

impl ApiReply for BasicReply {
    fn error(status: String, data: Option<JsonValue>) -> (r: Self)
        ensures
            r.status == status,
            r.reply == data,
    {
        BasicReply::new(status, data)
    }
}

/// `r` is a reply that `R::error` may return for the status text `status` and
/// the data `data`.
pub open spec fn is_error_reply<R: ApiReply>(r: R, status: Seq<char>, data: Option<JsonValue>) -> bool {
    exists|s: String| s@ == status && call_ensures(R::error, (s, data), r)
}

/// The answer to a request: an error of some kind, or a reply.
#[derive(Debug)]
pub enum JsonResponse<R: ApiReply = BasicReply> {
    NotFound,
    MethodNotAllowed,
    BadRequest,
    TooManyRequests,
    InternalServerError(Option<JsonValue>),
    EmptyQuery,
    RequestTimeout,
    Locked,
    ImATeapot,
    MisdirectedRequest,
    UnprocessableEntity,
    Success(R),
}

impl<R: ApiReply> JsonResponse<R> {
    pub fn ok(value: R) -> (r: JsonResponse<R>)
        ensures
            r == JsonResponse::Success(value),
    {
        JsonResponse::Success(value)
    }

    /// An internal error that carries `er` as a JSON string.
    pub fn internal_error(er: &str) -> (r: JsonResponse<R>)
        ensures
            r matches JsonResponse::InternalServerError(Some(v)) && v@ == json_quoted(er@),
    {
        match str_to_json_text(er) {
            Ok(text) => JsonResponse::InternalServerError(Some(JsonValue { text })),
            Err(_) => JsonResponse::InternalServerError(None),
        }
    }

    /// An internal error with no data.
    pub fn empty_error() -> (r: JsonResponse<R>)
        ensures
            r == JsonResponse::<R>::InternalServerError(None),
    {
        JsonResponse::InternalServerError(None)
    }

    /// The internal error that a failure is answered with: with its
    /// `detail` when debugging over HTTP is on, without any otherwise.
    pub fn debug_error(http_debug: bool, detail: &str) -> (r: JsonResponse<R>)
        ensures
            is_debug_error(r, http_debug, detail@),
    {
        if http_debug {
            JsonResponse::internal_error(detail)
        } else {
            JsonResponse::empty_error()
        }
    }

    /// The response that a connection answers with, given what its reply
    /// channel gave: the response sent, or, when the sending side went away
    /// without sending, an internal error with no data.
    pub fn received(outcome: Result<JsonResponse<R>, futures::channel::oneshot::Canceled>) -> (r:
        JsonResponse<R>)
        ensures
            match outcome {
                Ok(resp) => r == resp,
                Err(_) => r == JsonResponse::<R>::InternalServerError(None),
            },
    {
        match outcome {
            Ok(resp) => resp,
            Err(_) => JsonResponse::empty_error(),
        }
    }

    /// The status text that an error response is answered with.
    pub open spec fn error_text(&self) -> Seq<char> {
        match self {
            JsonResponse::NotFound => "Not Found"@,
            JsonResponse::MethodNotAllowed => "Method Not Allowed"@,
            JsonResponse::BadRequest => "Bad Request"@,
            JsonResponse::TooManyRequests => "Too Many Requests"@,
            JsonResponse::EmptyQuery => "Empty Query"@,
            JsonResponse::RequestTimeout => "Request Timeout"@,
            JsonResponse::Locked => "Locked"@,
            JsonResponse::ImATeapot => "I'm a teapot"@,
            JsonResponse::MisdirectedRequest => "Misdirected Request"@,
            JsonResponse::UnprocessableEntity => "Unprocessable Entity"@,
            JsonResponse::InternalServerError(_) => "Internal Server Error"@,
            JsonResponse::Success(_) => Seq::empty(),
        }
    }

    /// The data that an error response carries.
    pub open spec fn error_data(&self) -> Option<JsonValue> {
        match self {
            JsonResponse::InternalServerError(v) => *v,
            _ => None,
        }
    }

    /// The reply to send: the reply itself for `Success`, and for an error the
    /// reply that `R::error` builds from its status text and data.
    pub fn reply_value(self) -> (r: R)
        ensures
            match self {
                JsonResponse::Success(v) => r == v,
                _ => is_error_reply(r, self.error_text(), self.error_data()),
            },
    {
        match self {
            JsonResponse::NotFound => R::error("Not Found".to_owned(), None),
            JsonResponse::MethodNotAllowed => R::error("Method Not Allowed".to_owned(), None),
            JsonResponse::BadRequest => R::error("Bad Request".to_owned(), None),
            JsonResponse::TooManyRequests => R::error("Too Many Requests".to_owned(), None),
            JsonResponse::EmptyQuery => R::error("Empty Query".to_owned(), None),
            JsonResponse::RequestTimeout => R::error("Request Timeout".to_owned(), None),
            JsonResponse::Locked => R::error("Locked".to_owned(), None),
            JsonResponse::ImATeapot => R::error("I'm a teapot".to_owned(), None),
            JsonResponse::MisdirectedRequest => R::error("Misdirected Request".to_owned(), None),
            JsonResponse::UnprocessableEntity => R::error("Unprocessable Entity".to_owned(), None),
            JsonResponse::InternalServerError(v) => R::error("Internal Server Error".to_owned(), v),
            JsonResponse::Success(v) => v,
        }
    }

    /// The HTTP status code of the response.
    pub open spec fn status_code(&self) -> u16 {
        match self {
            JsonResponse::NotFound => 404,
            JsonResponse::MethodNotAllowed => 405,
            JsonResponse::TooManyRequests => 429,
            JsonResponse::BadRequest => 400,
            JsonResponse::EmptyQuery => 400,
            JsonResponse::RequestTimeout => 408,
            JsonResponse::InternalServerError(_) => 500,
            JsonResponse::Locked => 423,
            JsonResponse::ImATeapot => 418,
            JsonResponse::MisdirectedRequest => 421,
            JsonResponse::UnprocessableEntity => 422,
            JsonResponse::Success(_) => 200,
        }
    }

    /// The HTTP status code of the response.
    pub fn status(&self) -> (r: u16)
        ensures
            r == self.status_code(),
    {
        match self {
            JsonResponse::NotFound => 404,
            JsonResponse::MethodNotAllowed => 405,
            JsonResponse::TooManyRequests => 429,
            JsonResponse::BadRequest | JsonResponse::EmptyQuery => 400,
            JsonResponse::RequestTimeout => 408,
            JsonResponse::InternalServerError(..) => 500,
            JsonResponse::Locked => 423,
            JsonResponse::ImATeapot => 418,
            JsonResponse::MisdirectedRequest => 421,
            JsonResponse::UnprocessableEntity => 422,
            JsonResponse::Success(..) => 200,
        }
    }
}

/// What an HTTP response is made of, given the status of the response and
/// the JSON text of its reply: that status and text where the reply could be
/// written as JSON; otherwise status 500 with the JSON text of the reply to an
/// internal error (`fallback`), or with no body where that failed too.
pub fn response_plan(
    status: u16,
    json: Result<String, serde_json::Error>,
    fallback: Result<String, serde_json::Error>,
) -> (r: (u16, Option<String>))
    ensures
        json matches Ok(t) ==> r == (status, Some(t)),
        json is Err ==> r.0 == 500 && match fallback {
            Ok(f) => r.1 == Some(f),
            Err(_) => r.1 is None,
        },
{
    match json {
        Ok(t) => (status, Some(t)),
        Err(_) => match fallback {
            Ok(f) => (500, Some(f)),
            Err(_) => (500, None),
        },
    }
}

/// A response has the status 200 exactly when it is a success; every error
/// has a client or server error status (400 to 599).
pub proof fn law_success_status<R: ApiReply>(resp: JsonResponse<R>)
    ensures
        resp.status_code() == 200 <==> resp is Success,
        !(resp is Success) ==> 400 <= resp.status_code() < 600,
{
}

} // verus!
