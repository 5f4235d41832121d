//! Responses and their serialisation: `<status> <meta>\r\n`, followed by
//! `<body>\r\n` only for a success response that carries a body.

use vstd::prelude::*;
use crate::text::{chars_of, push_all, string_of};

verus! {

/// A response: a two-digit status code, its meta text and, for a success, a body.
pub struct ResponseStatus {
    pub status_code: u32,
    pub meta: String,
    pub body: Option<String>,
}

/// Whether `code` is in the success class (its leading digit is 2).
pub open spec fn is_success(code: u32) -> bool {
    code / 10 == 2
}

/// The view of an optional string.
pub open spec fn opt_view(s: Option<String>) -> Option<Seq<char>> {
    match s {
        Some(t) => Some(t@),
        None => None,
    }
}

impl ResponseStatus {
    /// A well-formed response: a two-digit code from 10 to 69, and a body only
    /// in the success class.
    pub open spec fn wf(&self) -> bool {
        &&& 10 <= self.status_code <= 69
        &&& self.body is Some ==> is_success(self.status_code)
    }

    pub fn new(status_code: u32, meta: String, body: Option<String>) -> (r: Self)
        ensures
            r.status_code == status_code,
            r.meta == meta,
            r.body == body,
    {
        Self { status_code, meta, body }
    }
}

/// Asks for input; the meta is the prompt.
pub const INPUT: u32 = 10;
/// Asks for sensitive input; the meta is the prompt.
pub const SENSITIVE_INPUT: u32 = 11;
/// Success; the meta is the MIME type of the body.
pub const SUCCESS: u32 = 20;
/// Temporary failure.
pub const TEMPORARY_FAILURE: u32 = 40;
/// Permanent failure: nothing to serve at this path.
pub const NOT_FOUND: u32 = 51;
/// Permanent failure: the request itself is unacceptable.
pub const BAD_REQUEST: u32 = 59;

/// The MIME type of every body served.
pub open spec fn text_gemini() -> Seq<char> {
    "text/gemini"@
}

/// The meta of a not-found response.
pub open spec fn not_found_meta() -> Seq<char> {
    "not found"@
}

impl View for ResponseStatus {
    type V = (u32, Seq<char>, Option<Seq<char>>);

    open spec fn view(&self) -> (u32, Seq<char>, Option<Seq<char>>) {
        (self.status_code, self.meta@, opt_view(self.body))
    }
}

/// A success response with a `text/gemini` body.
pub fn success(body: String) -> (r: ResponseStatus)
    ensures
        r@ == (SUCCESS, text_gemini(), Some(body@)),
        r.wf(),
{
    ResponseStatus::new(SUCCESS, "text/gemini".to_owned(), Some(body))
}

/// A not-found response, with a fixed meta that reveals nothing of the cause.
pub fn not_found() -> (r: ResponseStatus)
    ensures
        r@ == (NOT_FOUND, not_found_meta(), None::<Seq<char>>),
        r.wf(),
{
    ResponseStatus::new(NOT_FOUND, "not found".to_owned(), None)
}

/// The character of the decimal digit `d % 10`.
pub open spec fn digit(d: nat) -> char {
    ((d % 10) + 48) as char
}

/// The decimal notation of `n`, without leading zeros.
pub open spec fn decimal(n: nat) -> Seq<char>
    decreases n,
{
    if n < 10 {
        seq![digit(n)]
    } else {
        decimal(n / 10).push(digit(n % 10))
    }
}

/// The bytes on the wire, as characters, for a response with these fields.
pub open spec fn wire(code: u32, meta: Seq<char>, body: Option<Seq<char>>) -> Seq<char> {
    let head = decimal(code as nat) + seq![' '] + meta + seq!['\r', '\n'];
    if is_success(code) && body is Some {
        head + body->0 + seq!['\r', '\n']
    } else {
        head
    }
}

/// The decimal notation of `n`.
pub fn decimal_chars(n: u32) -> (r: Vec<char>)
    ensures
        r@ == decimal(n as nat),
    decreases n,
{
    let d: u8 = (n % 10) as u8;
    let c = (d + 48u8) as char;
    proof {
        assert(c == digit(n as nat));
    }
    if n < 10 {
        vec![c]
    } else {
        let mut r = decimal_chars(n / 10);
        r.push(c);
        r
    }
}

/// Serialises a response: the status line, then the body and a CRLF when the
/// code is a success and a body is present.
pub fn build_header(response: &ResponseStatus) -> (r: String)
    ensures
        r@ == wire(response.status_code, response.meta@, opt_view(response.body)),
{
    let mut out = decimal_chars(response.status_code);
    out.push(' ');
    push_all(&mut out, &chars_of(response.meta.as_str()));
    out.push('\r');
    out.push('\n');
    let success = response.status_code / 10 == 2;
    if success {
        match &response.body {
            Some(b) => {
                push_all(&mut out, &chars_of(b.as_str()));
                out.push('\r');
                out.push('\n');
            },
            None => {},
        }
    }
    let r = string_of(&out);
    proof {
        let head = decimal(response.status_code as nat) + seq![' '] + response.meta@ + seq!['\r', '\n'];
        if success && response.body is Some {
            assert(r@ =~= head + response.body->0@ + seq!['\r', '\n']);
        } else {
            assert(r@ =~= head);
        }
    }
    r
}

} // verus!
