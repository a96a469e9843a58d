//! What the library reads from a URL, and the one change it makes to one.
//!
//! Parsing and serialising a URL is the `url` crate's work. The library
//! names the results and reasons about what it does with them; what it
//! needs to know of a result it learns by reading the result back.

use crate::text::digit;
use vstd::prelude::*;

verus! {

/// The parts of a parsed URL that the library reads.
#[derive(Debug)]
pub struct UrlParts {
    /// The path, percent-encoded.
    pub path: String,
    /// The host, where the URL has one.
    pub host: Option<String>,
    /// The decoded name and value of each query parameter, in order.
    pub query_pairs: Vec<(String, String)>,
    /// The URL as the `url` crate writes it.
    pub text: String,
}

/// The path of the URL that `url::Url::parse` makes of `url`; `None` where it
/// makes none.
pub uninterp spec fn url_path(url: Seq<char>) -> Option<Seq<char>>;

/// The host of the URL that `url::Url::parse` makes of `url`; `None` where it
/// makes none or the URL has no host.
pub uninterp spec fn url_host(url: Seq<char>) -> Option<Seq<char>>;

/// The decoded query parameters of the URL that `url::Url::parse` makes of
/// `url`; `None` where it makes none.
pub uninterp spec fn url_query_pairs(url: Seq<char>) -> Option<Seq<(Seq<char>, Seq<char>)>>;

/// The text of the URL that `url::Url::parse` makes of `url`; `None` where
/// it makes none.
pub uninterp spec fn url_text(url: Seq<char>) -> Option<Seq<char>>;

/// The digit of `n` in base sixteen, in upper case.
pub open spec fn hex_digit(n: int) -> char {
    if n < 10 {
        digit(n)
    } else if n == 10 {
        'A'
    } else if n == 11 {
        'B'
    } else if n == 12 {
        'C'
    } else if n == 13 {
        'D'
    } else if n == 14 {
        'E'
    } else {
        'F'
    }
}

/// The byte `b` stands for itself in a form-encoded text: it is an ASCII
/// letter or digit, or one of `*`, `-`, `.` and `_`.
pub open spec fn stays_in_form(b: u8) -> bool {
    ||| 0x30 <= b <= 0x39
    ||| 0x41 <= b <= 0x5a
    ||| 0x61 <= b <= 0x7a
    ||| b == 0x2a
    ||| b == 0x2d
    ||| b == 0x2e
    ||| b == 0x5f
}

/// The byte `b` in a form-encoded text: itself, `+` for a space, or `%` and
/// its two digits in base sixteen.
pub open spec fn form_encoded_byte(b: u8) -> Seq<char> {
    if stays_in_form(b) {
        seq![b as char]
    } else if b == 0x20 {
        seq!['+']
    } else {
        seq!['%', hex_digit(b as int / 16), hex_digit(b as int % 16)]
    }
}

/// `text` in the `application/x-www-form-urlencoded` byte serialisation:
/// each byte of its UTF-8 form in its encoded form.
pub open spec fn form_encoded(text: Seq<char>) -> Seq<char> {
    vstd::utf8::encode_utf8(text).map_values(|b: u8| form_encoded_byte(b)).flatten()
}

/// The text of the URL that `url::Url::parse` makes of `url`, after
/// `Url::set_query` first without a query and then with `query`; `None`
/// where `parse` makes no URL.
pub uninterp spec fn url_with_query(url: Seq<char>, query: Option<Seq<char>>) -> Option<
    Seq<char>,
>;

/// The number of bytes that `text` takes.
pub open spec fn byte_len(text: Seq<char>) -> nat {
    vstd::utf8::encode_utf8(text).len()
}

/// The URL `url` with the new query `query` stays within the 32-bit length
/// that the `url` crate can hold: the URL as written, a question mark, and
/// three bytes for each byte of the query, which is the most that encoding
/// makes of one.
pub open spec fn fits(url: Seq<char>, query: Option<Seq<char>>) -> bool {
    match url_text(url) {
        Some(text) => byte_len(text) + 3 * (match query {
            Some(q) => byte_len(q),
            None => 0,
        }) + 2 <= u32::MAX,
        None => false,
    }
}

/// The views of a list of pairs of strings.
pub open spec fn pair_views(pairs: Seq<(String, String)>) -> Seq<(Seq<char>, Seq<char>)> {
    Seq::new(pairs.len(), |i: int| (pairs[i].0@, pairs[i].1@))
}

/// The view of a string that may be absent.
pub open spec fn text_view(text: Option<String>) -> Option<Seq<char>> {
    match text {
        Some(t) => Some(t@),
        None => None,
    }
}

/// The view of a borrowed text that may be absent.
pub open spec fn str_view(text: Option<&str>) -> Option<Seq<char>> {
    match text {
        Some(t) => Some(t@),
        None => None,
    }
}

/// Calls `url::Url::parse`, then reads `Url::path`, `Url::host_str`,
/// `Url::query_pairs` and `Url::as_str` from the result. Trusted: `None`
/// comes back exactly where `parse` fails, and the four parts are the ones
/// named `url_path`, `url_host`, `url_query_pairs` and `url_text`.
#[verifier::external_body]
pub(crate) fn parse_url(url: &str) -> (parts: Option<UrlParts>)
    ensures
        match parts {
            Some(p) => url_path(url@) == Some(p.path@) && url_host(url@) == text_view(p.host)
                && url_query_pairs(url@) == Some(pair_views(p.query_pairs@)) && url_text(url@)
                == Some(p.text@),
            None => url_path(url@) is None && url_host(url@) is None && url_query_pairs(url@)
                is None && url_text(url@) is None,
        },
{
    match url::Url::parse(url) {
        Ok(u) => Some(
            UrlParts {
                path: u.path().to_string(),
                host: u.host_str().map(|h| h.to_string()),
                query_pairs: u.query_pairs().map(|(k, v)| (k.into(), v.into())).collect(),
                text: u.as_str().to_string(),
            },
        ),
        Err(_) => None,
    }
}

/// Calls `url::form_urlencoded::byte_serialize` and collects the pieces.
/// Trusted: the text is the serialisation that `form_encoded` describes.
#[verifier::external_body]
pub(crate) fn byte_serialize(text: &str) -> (out: String)
    ensures
        out@ == form_encoded(text@),
{
    url::form_urlencoded::byte_serialize(text.as_bytes()).collect()
}

/// Calls `url::Url::parse`, `Url::set_query` without a query, `Url::set_query`
/// with `query`, and `String::from`. Trusted: `None` comes back exactly
/// where `parse` fails, and the text is the one named `url_with_query`.
/// `set_query` stops the program when the URL outgrows a 32-bit length;
/// `fits` keeps it within.
#[verifier::external_body]
pub(crate) fn replace_query(url: &str, query: Option<&str>) -> (out: Option<String>)
    requires
        url_text(url@) is Some ==> fits(url@, str_view(query)),
    ensures
        text_view(out) == url_with_query(url@, str_view(query)),
{
    match url::Url::parse(url) {
        Ok(mut u) => {
            u.set_query(None);
            u.set_query(query);
            Some(String::from(u))
        },
        Err(_) => None,
    }
}

} // verus!
