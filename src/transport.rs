use vstd::prelude::*;
use vstd::string::StringSliceAdditionalSpecFns;

use crate::error::AppError;
use reqwest::header::{HeaderValue, InvalidHeaderValue};
use url::{ParseError, Url};

verus! {

#[verifier::external_type_specification]
#[verifier::external_body]
pub struct ExHeaderValue(HeaderValue);

#[verifier::external_type_specification]
#[verifier::external_body]
pub struct ExInvalidHeaderValue(InvalidHeaderValue);

#[verifier::external_type_specification]
#[verifier::external_body]
pub struct ExUrl(Url);

#[verifier::external_type_specification]
#[verifier::external_body]
pub struct ExParseError(ParseError);

/// The root of every endpoint of the remote API.
pub const API_BASE: &'static str = "https://api.notion.com/v1/";

/// The API version that every request announces.
pub const API_VERSION: &'static str = "2022-06-28";

/// The name of the header that carries the API version.
pub const API_VERSION_HEADER: &'static str = "Notion-Version";

/// Whether a byte may stand in an HTTP header value: a visible or extended
/// byte, a space, or a horizontal tab.
pub open spec fn header_byte(b: u8) -> bool {
    (b >= 32 && b != 127) || b == 9
}

/// Whether every byte of `s` may stand in an HTTP header value.
pub open spec fn header_text(s: Seq<u8>) -> bool {
    forall|i: int| 0 <= i < s.len() ==> header_byte(#[trigger] s[i])
}

/// An HTTP header value together with the bytes that it holds.
#[derive(Debug)]
pub struct HeaderText {
    value: HeaderValue,
    bytes: Vec<u8>,
}

impl View for HeaderText {
    type V = Seq<u8>;

    /// The bytes that the header value holds.
    closed spec fn view(&self) -> Seq<u8> {
        self.bytes@
    }
}

impl HeaderText {
    /// The header value, to be sent.
    pub fn into_value(self) -> HeaderValue {
        self.value
    }

    /// The bytes that the header value holds.
    pub fn as_bytes(&self) -> (r: &[u8])
        ensures
            r@ == self@,
    {
        self.bytes.as_slice()
    }
}

/// Relies on http's `HeaderValue::from_bytes` (re-exported by reqwest), which
/// accepts exactly the byte strings whose every byte passes its `is_valid`,
/// and then holds a copy of those bytes.
#[verifier::external_body]
fn header_value(bytes: Vec<u8>) -> (r: Result<HeaderText, InvalidHeaderValue>)
    ensures
        r is Ok <==> header_text(bytes@),
        r is Ok ==> r->Ok_0@ == bytes@,
{
    match HeaderValue::from_bytes(&bytes) {
        Ok(value) => Ok(HeaderText { value, bytes }),
        Err(e) => Err(e),
    }
}

/// A parsed URL together with its serialisation.
#[derive(Debug)]
pub struct WebUrl {
    url: Url,
    text: String,
}

impl View for WebUrl {
    type V = Seq<char>;

    /// The serialisation of the URL.
    closed spec fn view(&self) -> Seq<char> {
        self.text@
    }
}

impl WebUrl {
    /// The parsed URL, to be requested.
    pub fn as_url(&self) -> &Url {
        &self.url
    }

    /// The serialisation of the URL.
    pub fn as_str(&self) -> (r: &str)
        ensures
            r@ == self@,
    {
        self.text.as_str()
    }
}

/// The serialisation of the URL that `s` parses to, or `None` where `s` is no
/// valid absolute URL.
pub uninterp spec fn parsed_url(s: Seq<char>) -> Option<Seq<char>>;

/// Relies on url's `Url::parse`: whether and to what `s` parses depends on
/// `s` alone; the serialisation is read back with `Url::as_str`.
#[verifier::external_body]
fn parse_url(s: &str) -> (r: Result<WebUrl, ParseError>)
    ensures
        r is Ok <==> parsed_url(s@) is Some,
        r is Ok ==> parsed_url(s@) == Some(r->Ok_0@),
{
    match Url::parse(s) {
        Ok(url) => Ok(WebUrl { text: url.as_str().to_string(), url }),
        Err(e) => Err(e),
    }
}

/// The serialisation of the URL that reference `path` resolves to against
/// the URL serialised as `base`, or `None` where the resolution fails.
pub uninterp spec fn joined_url(base: Seq<char>, path: Seq<char>) -> Option<Seq<char>>;

/// Relies on url's `Url::join`, which resolves a relative reference against a
/// base, depending on the two alone; the serialisation is read back with
/// `Url::as_str`.
#[verifier::external_body]
fn join_url(base: &WebUrl, path: &str) -> (r: Result<WebUrl, ParseError>)
    ensures
        r is Ok <==> joined_url(base@, path@) is Some,
        r is Ok ==> joined_url(base@, path@) == Some(r->Ok_0@),
{
    match base.url.join(path) {
        Ok(url) => Ok(WebUrl { text: url.as_str().to_string(), url }),
        Err(e) => Err(e),
    }
}

/// The lower-case hexadecimal digit of `n`, below 16.
pub open spec fn hex_digit(n: u32) -> char {
    "0123456789abcdef"@[n as int]
}

/// How a JSON string writes character `c`: quote and backslash behind a
/// backslash, the short escapes of backspace, tab, line feed, form feed and
/// carriage return, `\u00XX` for the other control characters below 0x20,
/// and every other character as it is.
pub open spec fn json_escaped(c: char) -> Seq<char> {
    if c == '"' {
        "\\\""@
    } else if c == '\\' {
        "\\\\"@
    } else if c == '\u{8}' {
        "\\b"@
    } else if c == '\t' {
        "\\t"@
    } else if c == '\n' {
        "\\n"@
    } else if c == '\u{c}' {
        "\\f"@
    } else if c == '\r' {
        "\\r"@
    } else if (c as u32) < 32 {
        "\\u00"@ + seq![hex_digit((c as u32) / 16), hex_digit((c as u32) % 16)]
    } else {
        seq![c]
    }
}

/// The characters of `s`, each written as a JSON string writes it.
pub open spec fn json_escaped_all(s: Seq<char>) -> Seq<char>
    decreases s.len(),
{
    if s.len() == 0 {
        Seq::empty()
    } else {
        json_escaped_all(s.drop_last()) + json_escaped(s.last())
    }
}

/// The JSON string literal that holds `s`.
pub open spec fn json_quoted(s: Seq<char>) -> Seq<char> {
    "\""@ + json_escaped_all(s) + "\""@
}

/// Relies on `serde_json::to_string` on a `str`: the JSON string literal of
/// the text, escaped by its `ESCAPE` table and `write_char_escape`. Its
/// serialiser writes into a `Vec<u8>`, which cannot fail.
#[verifier::external_body]
fn json_string(s: &str) -> (r: Result<String, String>)
    ensures
        r is Ok,
        r->Ok_0@ == json_quoted(s@),
{
    serde_json::to_string(s).map_err(|e| e.to_string())
}

/// The two headers that every request carries.
#[derive(Debug)]
pub struct DefaultHeaders {
    /// The API version marker, sent under `API_VERSION_HEADER`.
    pub version: HeaderText,
    /// `Bearer <token>`, sent as `Authorization`.
    pub authorization: HeaderText,
}

/// The bytes of `API_VERSION`.
pub open spec fn version_bytes() -> Seq<u8> {
    seq![50u8, 48u8, 50u8, 50u8, 45u8, 48u8, 54u8, 45u8, 50u8, 56u8]
}

/// The bytes of `Bearer ` followed by those of `token`.
pub open spec fn bearer_bytes(token: Seq<u8>) -> Seq<u8> {
    seq![66u8, 101u8, 97u8, 114u8, 101u8, 114u8, 32u8] + token
}

/// Builds the default headers for `token`: the API version, and `Bearer `
/// followed by the token. Fails with `WrongToken`, before any request,
/// exactly when the token holds a byte that a header value refuses.
pub fn default_headers(token: &str) -> (r: Result<DefaultHeaders, AppError>)
    ensures
        r is Ok <==> header_text(token.spec_bytes()),
        r is Ok ==> r->Ok_0.version@ == version_bytes(),
        r is Ok ==> r->Ok_0.authorization@ == bearer_bytes(token.spec_bytes()),
        r is Err ==> r->Err_0 == AppError::WrongToken,
{
    let version_text: Vec<u8> = vec![50u8, 48u8, 50u8, 50u8, 45u8, 48u8, 54u8, 45u8, 50u8, 56u8];
    assert(version_text@ =~= version_bytes());
    let version = match header_value(version_text) {
        Ok(v) => v,
        Err(_) => {
            assert(header_byte(version_bytes()[0]));
            return Err(AppError::WrongToken);
        },
    };
    let mut auth: Vec<u8> = vec![66u8, 101u8, 97u8, 114u8, 101u8, 114u8, 32u8];
    let t = token.as_bytes();
    let mut i: usize = 0;
    while i < t.len()
        invariant
            i <= t@.len(),
            t@ == token.spec_bytes(),
            auth@ == bearer_bytes(t@.subrange(0, i as int)),
        decreases t@.len() - i,
    {
        auth.push(t[i]);
        assert(t@.subrange(0, i + 1) =~= t@.subrange(0, i as int).push(t@[i as int]));
        assert(auth@ =~= bearer_bytes(t@.subrange(0, i + 1)));
        i = i + 1;
    }
    assert(t@.subrange(0, t@.len() as int) =~= t@);
    let ghost b = bearer_bytes(t@);
    assert(header_text(b) <==> header_text(t@)) by {
        if header_text(t@) {
            assert forall|k: int| 0 <= k < b.len() implies header_byte(#[trigger] b[k]) by {
                if k >= 7 {
                    assert(b[k] == t@[k - 7]);
                }
            }
        }
        if header_text(b) {
            assert forall|k: int| 0 <= k < t@.len() implies header_byte(#[trigger] t@[k]) by {
                assert(b[k + 7] == t@[k]);
            }
        }
    }
    match header_value(auth) {
        Ok(authorization) => Ok(DefaultHeaders { version, authorization }),
        Err(_) => Err(AppError::WrongToken),
    }
}

/// Parses the root of the remote API, `API_BASE`.
pub fn api_base() -> (r: Result<WebUrl, AppError>)
    ensures
        r is Ok <==> parsed_url(API_BASE@) is Some,
        r is Ok ==> parsed_url(API_BASE@) == Some(r->Ok_0@),
        r is Err ==> r->Err_0 == AppError::WrongUrl,
{
    match parse_url(API_BASE) {
        Ok(u) => Ok(u),
        Err(_) => Err(AppError::WrongUrl),
    }
}

/// The endpoint at `path` below `base`: `path` resolved against `base`.
pub fn endpoint(base: &WebUrl, path: &str) -> (r: Result<WebUrl, AppError>)
    ensures
        r is Ok <==> joined_url(base@, path@) is Some,
        r is Ok ==> joined_url(base@, path@) == Some(r->Ok_0@),
        r is Err ==> r->Err_0 == AppError::WrongUrl,
{
    match join_url(base, path) {
        Ok(u) => Ok(u),
        Err(_) => Err(AppError::WrongUrl),
    }
}

/// The body of a collection query: an empty object on the first page, else
/// an object whose only member `start_cursor` holds the cursor.
pub open spec fn query_body_text(cursor: Option<Seq<char>>) -> Seq<char> {
    match cursor {
        None => "{}"@,
        Some(c) => "{\"start_cursor\":"@ + json_quoted(c) + "}"@,
    }
}

/// Writes the JSON body of a collection query for `cursor`. Without a cursor
/// the body omits the member altogether.
pub fn query_body(cursor: &Option<String>) -> (r: String)
    ensures
        r@ == query_body_text(
            match cursor {
                Some(c) => Some(c@),
                None => None,
            },
        ),
{
    match cursor {
        None => String::from_str("{}"),
        Some(c) => match json_string(c.as_str()) {
            Ok(q) => {
                let mut body = String::from_str("{\"start_cursor\":");
                body.append(q.as_str());
                body.append("}");
                body
            },
            Err(_) => {
                assert(false);
                String::new()
            },
        },
    }
}

} // verus!
