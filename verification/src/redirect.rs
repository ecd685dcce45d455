//! The redirect helper: a path under `/view/` is decoded, checked, and
//! answered with a page that sends the client to the viewer with that file
//! selected.

use crate::api::EntryKind;
use crate::sandbox::SandboxError;
use crate::scanner::text_from_utf8;
use vstd::prelude::*;
use vstd::string::*;
use vstd::utf8::*;

verus! {

/// The page up to the place of the encoded path.
pub const PAGE_HEAD: &'static str =
    "<!DOCTYPE html>\n<html>\n<head>\n    <meta charset=\"UTF-8\">\n    <title>文件浏览器</title>\n</head>\n<body>\n    <script>\n        window.location.href = '/?file=";

/// The page behind the encoded path.
pub const PAGE_TAIL: &'static str = "';\n    </script>\n</body>\n</html>";

/// The value of a hexadecimal digit in ASCII.
pub open spec fn hex_value(b: u8) -> Option<int> {
    if 48 <= b <= 57 {
        Some(b - 48)
    } else if 65 <= b <= 70 {
        Some(b - 55)
    } else if 97 <= b <= 102 {
        Some(b - 87)
    } else {
        None
    }
}

/// Percent-decoding: each percent sign that two hexadecimal digits follow
/// stands, with them, for the byte the digits spell; every other byte
/// stands for itself.
pub open spec fn percent_decoded(s: Seq<u8>) -> Seq<u8>
    decreases s.len(),
{
    if s.len() == 0 {
        Seq::empty()
    } else if s[0] == 37 && s.len() >= 3 && hex_value(s[1]) is Some && hex_value(s[2]) is Some {
        seq![(hex_value(s[1])->0 * 16 + hex_value(s[2])->0) as u8] + percent_decoded(s.skip(3))
    } else {
        seq![s[0]] + percent_decoded(s.skip(1))
    }
}

/// `percent_encoding::percent_decode_str`, collected: the bytes of `input`
/// with every percent sign and the two hexadecimal digits behind it
/// replaced by the byte they spell.
#[verifier::external_body]
pub(crate) fn percent_decode(input: &str) -> (r: Vec<u8>)
    ensures
        r@ == percent_decoded(encode_utf8(input@)),
{
    percent_encoding::percent_decode_str(input).collect()
}

/// Whether a byte is written as it is in an encoded URL: an ASCII letter or
/// digit, or one of `-`, `.`, `_` and `~`.
pub open spec fn is_unreserved(b: u8) -> bool {
    ||| 48 <= b <= 57
    ||| 65 <= b <= 90
    ||| 97 <= b <= 122
    ||| b == 45
    ||| b == 46
    ||| b == 95
    ||| b == 126
}

/// The hexadecimal digit, in upper case, of a value below 16.
pub open spec fn hex_digit(n: int) -> char {
    if n < 10 {
        (48 + n) as u8 as char
    } else {
        (55 + n) as u8 as char
    }
}

/// One byte as it stands in an encoded URL.
pub open spec fn encoded_byte(b: u8) -> Seq<char> {
    if is_unreserved(b) {
        seq![b as char]
    } else {
        seq!['%', hex_digit(b as int / 16), hex_digit(b as int % 16)]
    }
}

/// Bytes as they stand in an encoded URL.
pub open spec fn url_encoded(bytes: Seq<u8>) -> Seq<char>
    decreases bytes.len(),
{
    if bytes.len() == 0 {
        Seq::empty()
    } else {
        encoded_byte(bytes[0]) + url_encoded(bytes.drop_first())
    }
}

/// `urlencoding::encode`: the UTF-8 bytes of `text`, each one that is not
/// an ASCII letter or digit or one of `-`, `.`, `_`, `~` written as a
/// percent sign and two upper-case hexadecimal digits.
#[verifier::external_body]
pub(crate) fn url_encode(text: &str) -> (r: String)
    ensures
        r@ == url_encoded(encode_utf8(text@)),
{
    urlencoding::encode(text).into_owned()
}

/// What the redirect helper answers.
#[derive(Clone, Debug)]
pub enum Redirect {
    /// The page that sends the client on.
    Page(String),
    /// The path names something that is no regular file.
    NotAFile,
    /// The path was refused or names nothing.
    NotFound,
}

/// The path that a percent-encoded request path stands for; empty where
/// the decoded bytes are not valid UTF-8.
pub open spec fn decoded_path(raw: Seq<char>) -> Seq<char> {
    let bytes = percent_decoded(encode_utf8(raw));
    if valid_utf8(bytes) {
        decode_utf8(bytes)
    } else {
        Seq::empty()
    }
}

/// The text of the page that sends the client to the viewer with the file
/// of the raw request path `raw` selected.
pub open spec fn page_text(raw: Seq<char>) -> Seq<char> {
    PAGE_HEAD@ + url_encoded(encode_utf8(raw)) + PAGE_TAIL@
}

/// Decodes the percent-encoded path of a request.
pub fn decode_request_path(raw: &str) -> (r: String)
    ensures
        r@ == decoded_path(raw@),
{
    broadcast use encode_utf8_decode_utf8;

    let bytes = percent_decode(raw);
    match text_from_utf8(bytes) {
        Some(path) => path,
        None => String::new(),
    }
}

/// The page that sends the client to the viewer with the file of the raw
/// request path `raw` selected.
pub fn redirect_page(raw: &str) -> (r: String)
    ensures
        r@ == page_text(raw@),
{
    let encoded = url_encode(raw);
    let mut page = String::from_str(PAGE_HEAD);
    page.append(encoded.as_str());
    page.append(PAGE_TAIL);
    page
}

/// What the redirect helper answers for the raw request path `raw`, given
/// what the sandbox and the file system made of the decoded path.
pub fn redirect_response(raw: &str, target: Result<EntryKind, SandboxError>) -> (r: Redirect)
    ensures
        match target {
            Ok(EntryKind::File) => r matches Redirect::Page(page) && page@ == page_text(raw@),
            Ok(_) => r is NotAFile,
            Err(_) => r is NotFound,
        },
{
    match target {
        Ok(EntryKind::File) => Redirect::Page(redirect_page(raw)),
        Ok(_) => Redirect::NotAFile,
        Err(_) => Redirect::NotFound,
    }
}

impl Redirect {
    /// The HTTP status of the answer.
    pub fn status_code(&self) -> (r: u16)
        ensures
            r == if *self is Page {
                200u16
            } else {
                404u16
            },
    {
        match self {
            Redirect::Page(_) => 200,
            _ => 404,
        }
    }
}

} // verus!
