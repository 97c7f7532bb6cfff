//! Extraction of the media type and base64 payload from an OpenAI image data
//! URL.
use vstd::prelude::*;

verus! {

/// The pattern that image data URLs are matched with.
pub const IMAGE_URL_PATTERN: &'static str = "data:(image/(png|jpeg|jpg|webp|gif));base64,([A-Za-z0-9+/=]+)";

/// A character of the class `[A-Za-z0-9+/=]`.
pub open spec fn is_b64_char(c: char) -> bool {
    ||| ('A' <= c && c <= 'Z')
    ||| ('a' <= c && c <= 'z')
    ||| ('0' <= c && c <= '9')
    ||| c == '+'
    ||| c == '/'
    ||| c == '='
}

/// `p` occurs in `s` at offset `i`.
pub open spec fn starts_at(s: Seq<char>, i: int, p: Seq<char>) -> bool {
    0 <= i && i + p.len() <= s.len() && s.subrange(i, i + p.len()) == p
}

pub open spec fn data_image_prefix() -> Seq<char> {
    seq!['d', 'a', 't', 'a', ':', 'i', 'm', 'a', 'g', 'e', '/']
}

pub open spec fn image_prefix() -> Seq<char> {
    seq!['i', 'm', 'a', 'g', 'e', '/']
}

pub open spec fn base64_marker() -> Seq<char> {
    seq![';', 'b', 'a', 's', 'e', '6', '4', ',']
}

/// The alternative of `(png|jpeg|jpg|webp|gif)` that occurs at offset `i`;
/// no two of them can occur at one offset.
pub open spec fn image_subtype_at(s: Seq<char>, i: int) -> Option<Seq<char>> {
    if starts_at(s, i, seq!['p', 'n', 'g']) {
        Some(seq!['p', 'n', 'g'])
    } else if starts_at(s, i, seq!['j', 'p', 'e', 'g']) {
        Some(seq!['j', 'p', 'e', 'g'])
    } else if starts_at(s, i, seq!['j', 'p', 'g']) {
        Some(seq!['j', 'p', 'g'])
    } else if starts_at(s, i, seq!['w', 'e', 'b', 'p']) {
        Some(seq!['w', 'e', 'b', 'p'])
    } else if starts_at(s, i, seq!['g', 'i', 'f']) {
        Some(seq!['g', 'i', 'f'])
    } else {
        None
    }
}

/// The length of the longest run of `[A-Za-z0-9+/=]` starting at offset `k`.
pub open spec fn b64_run(s: Seq<char>, k: int) -> int
    decreases s.len() - k,
{
    if 0 <= k < s.len() && is_b64_char(s[k]) {
        1 + b64_run(s, k + 1)
    } else {
        0
    }
}

/// The match of `IMAGE_URL_PATTERN` that starts at offset `i`, if any, as
/// its first capture group (the media type) and third group (the payload,
/// taken greedily).
pub open spec fn image_match_at(s: Seq<char>, i: int) -> Option<(Seq<char>, Seq<char>)> {
    if !starts_at(s, i, data_image_prefix()) {
        None
    } else {
        match image_subtype_at(s, i + 11) {
            None => None,
            Some(sub) => {
                let k = i + 11 + sub.len() + 8;
                if starts_at(s, i + 11 + sub.len(), base64_marker()) && b64_run(s, k) > 0 {
                    Some((image_prefix() + sub, s.subrange(k, k + b64_run(s, k))))
                } else {
                    None
                }
            },
        }
    }
}

/// The captures of the leftmost match of `IMAGE_URL_PATTERN` at or after
/// offset `from`.
pub open spec fn image_url_captures_from(s: Seq<char>, from: int) -> Option<(Seq<char>, Seq<char>)>
    decreases s.len() - from,
{
    if from < 0 || from >= s.len() {
        None
    } else {
        match image_match_at(s, from) {
            Some(m) => Some(m),
            None => image_url_captures_from(s, from + 1),
        }
    }
}

/// The captures of the leftmost match of `IMAGE_URL_PATTERN` in `s`.
pub open spec fn image_url_captures(s: Seq<char>) -> Option<(Seq<char>, Seq<char>)> {
    image_url_captures_from(s, 0)
}

/// `regex::Regex::captures` with `IMAGE_URL_PATTERN` (the only pattern it
/// is given): the regex crate reports the leftmost-first match, whose first
/// and third groups are what `image_url_captures` describes.
#[verifier::external_body]
fn regex_image_url_captures(pattern: &str, haystack: &str) -> (res: Option<(String, String)>)
    requires
        pattern@ == IMAGE_URL_PATTERN@,
    ensures
        match res {
            None => image_url_captures(haystack@) is None,
            Some((t, c)) => image_url_captures(haystack@) == Some((t@, c@)),
        },
{
    let re = regex::Regex::new(pattern).unwrap();
    match re.captures(haystack) {
        Some(caps) => match (caps.get(1), caps.get(3)) {
            (Some(t), Some(c)) => Some((t.as_str().to_string(), c.as_str().to_string())),
            _ => None,
        },
        None => None,
    }
}

/// The media type, the word `base64` and the payload of the first image data
/// URL in `image_url`.
pub fn parse_image_b64_from_image_url_openai(image_url: &str) -> (res: Option<(String, String, String)>)
    ensures
        match res {
            None => image_url_captures(image_url@) is None,
            Some((t, e, c)) => {
                &&& image_url_captures(image_url@) == Some((t@, c@))
                &&& e@ == "base64"@
            },
        },
{
    match regex_image_url_captures(IMAGE_URL_PATTERN, image_url) {
        Some((image_type, value)) => {
            let encoding = "base64".to_owned();
            Some((image_type, encoding, value))
        },
        None => None,
    }
}

/// The bytes that standard base64 decoding (`base64::decode`) gives for the
/// text, or `None` where the text is not valid standard base64.
pub uninterp spec fn base64_decoded(s: Seq<char>) -> Option<Seq<u8>>;

/// `base64::decode` with the standard alphabet and padding: its result is
/// named by `base64_decoded`; a decoding error becomes `None`.
#[verifier::external_body]
fn base64_decode(s: &str) -> (res: Option<Vec<u8>>)
    ensures
        match res {
            Some(v) => base64_decoded(s@) == Some(v@),
            None => base64_decoded(s@) is None,
        },
{
    #[allow(deprecated)]
    base64::decode(s).ok()
}

/// The image bytes that base64 text encodes, or the error
/// `base64 decode failed`.
pub fn image_bytes_from_b64string(image_b64: &str) -> (res: Result<Vec<u8>, String>)
    ensures
        match base64_decoded(image_b64@) {
            Some(b) => res matches Ok(v) && v@ == b,
            None => res matches Err(e) && e@ == "base64 decode failed"@,
        },
{
    match base64_decode(image_b64) {
        Some(bytes) => Ok(bytes),
        None => Err("base64 decode failed".to_owned()),
    }
}

} // verus!
