//! Quote sources: code prefixes, payload framing and quote-time text.
use vstd::prelude::*;

use crate::text::{
    chars_of, find, find_char, has_prefix, lemma_find_char, lemma_rfind_char, owned, push_str, rfind,
    rfind_char, split, split_char, starts_with, string_of, views,
};

verus! {

broadcast use vstd::string::group_string_axioms;

/// Exchange prefix used by the Tencent and Sina quote APIs: `sh` and `bj`
/// codes keep their prefix, everything else is treated as Shenzhen.
pub open spec fn qq_prefix(code: Seq<char>) -> Seq<char> {
    if starts_with(code, "sh"@) {
        "sh"@
    } else if starts_with(code, "bj"@) {
        "bj"@
    } else {
        "sz"@
    }
}

/// Market prefix of a quote code.
pub fn to_qq_prefix(code: &str) -> (r: &'static str)
    ensures
        r@ == qq_prefix(code@),
{
    let v = chars_of(code);
    if has_prefix(&v, &chars_of("sh")) {
        "sh"
    } else if has_prefix(&v, &chars_of("bj")) {
        "bj"
    } else {
        "sz"
    }
}

/// `char::is_ascii_digit`.
pub open spec fn is_digit(c: char) -> bool {
    '0' <= c && c <= '9'
}

/// `char::is_ascii_digit`.
pub fn is_ascii_digit(c: char) -> (b: bool)
    ensures
        b == is_digit(c),
{
    '0' <= c && c <= '9'
}

/// The numeric part of a code, as the quote sources want it.
///
/// The tail that starts at the first non-digit character is taken only when it
/// is all digits; since it starts with that non-digit character it never is,
/// so the code comes back unchanged.
pub fn bare_code(code: &str) -> (r: String)
    ensures
        r@ == code@,
{
    let v = chars_of(code);
    let mut idx: usize = 0;
    while idx < v.len() && is_ascii_digit(v[idx])
        invariant
            idx <= v@.len(),
        decreases v@.len() - idx,
    {
        idx = idx + 1;
    }
    if idx < v.len() {
        // The tail `v[idx..]` is non-empty; it is returned only if all its
        // characters are digits.
        let mut all_digits = true;
        let mut k = idx;
        while k < v.len()
            invariant
                idx <= k <= v@.len(),
                idx < v@.len(),
                !is_digit(v@[idx as int]),
                all_digits ==> k == idx,
            decreases v@.len() - k,
        {
            if !is_ascii_digit(v[k]) {
                all_digits = false;
            }
            k = k + 1;
        }
        if all_digits {
            return string_of(&v, idx, v.len());
        }
    }
    owned(code)
}

/// Eastmoney `secid`: market `1` for Shanghai (`sh` prefix), `0` otherwise,
/// a dot and the bare code.
pub open spec fn eastmoney_secid_of(code: Seq<char>) -> Seq<char> {
    (if starts_with(code, "sh"@) {
        "1"@
    } else {
        "0"@
    }) + "."@ + code
}

/// The `secid` query value of the Eastmoney quote and daily-bar endpoints.
pub fn eastmoney_secid(code: &str) -> (r: String)
    ensures
        r@ == eastmoney_secid_of(code@),
{
    let v = chars_of(code);
    let mut r = if has_prefix(&v, &chars_of("sh")) {
        owned("1")
    } else {
        owned("0")
    };
    push_str(&mut r, ".");
    let bare = bare_code(code);
    push_str(&mut r, bare.as_str());
    r
}

/// Why a quoted payload (`v_sh600000="...";`) was refused.
#[derive(Debug, Clone, Copy, PartialEq, Eq)]
pub enum PayloadError {
    /// No `"` in the body.
    NoQuote,
    /// Fewer fields between the quotes than the source always sends.
    BadPayload,
}

/// The body has no `"`, or its first `"` stands before its last one.
pub open spec fn quotes_well_placed(body: Seq<char>) -> bool {
    match find_char(body, '"') {
        Some(i) => i < rfind_char(body, '"')->0,
        None => true,
    }
}

/// What lies between the first and the last `"` of a body.
pub open spec fn quoted_part(body: Seq<char>) -> Seq<char> {
    body.subrange(find_char(body, '"')->0 + 1, rfind_char(body, '"')->0)
}

/// Result of framing a quoted payload whose fields are separated by `sep`.
pub open spec fn quoted_fields_of(body: Seq<char>, sep: char, min_fields: nat) -> Result<
    Seq<Seq<char>>,
    PayloadError,
> {
    if find_char(body, '"') is None {
        Err(PayloadError::NoQuote)
    } else if split_char(quoted_part(body), sep).len() < min_fields {
        Err(PayloadError::BadPayload)
    } else {
        Ok(split_char(quoted_part(body), sep))
    }
}

/// The fields of a quoted payload, as the Tencent (`~`, at least 35 fields)
/// and Sina (`,`, at least 32 fields) quote parsers cut them.
///
/// A body with a single `"` makes the text between the quotes an inverted
/// range; such a body is left out.
pub fn quoted_fields(body: &str, sep: char, min_fields: usize) -> (r: Result<
    Vec<String>,
    PayloadError,
>)
    requires
        quotes_well_placed(body@),
    ensures
        match r {
            Ok(fields) => quoted_fields_of(body@, sep, min_fields as nat) == Ok::<
                Seq<Seq<char>>,
                PayloadError,
            >(views(fields@)),
            Err(e) => quoted_fields_of(body@, sep, min_fields as nat) == Err::<
                Seq<Seq<char>>,
                PayloadError,
            >(e),
        },
{
    let v = chars_of(body);
    let start = match find(&v, '"') {
        Some(i) => i,
        None => return Err(PayloadError::NoQuote),
    };
    proof {
        lemma_find_char(v@, '"');
        lemma_rfind_char(v@, '"');
    }
    let end = match rfind(&v, '"') {
        Some(j) => j,
        None => return Err(PayloadError::NoQuote),
    };
    let inner = string_of(&v, start + 1, end);
    let inner_chars = chars_of(inner.as_str());
    let parts = split(&inner_chars, sep);
    if parts.len() < min_fields {
        Err(PayloadError::BadPayload)
    } else {
        Ok(parts)
    }
}

/// Quote time as the Tencent source sends it (`yyyymmddHHMMSS...`) made
/// readable: when the first 14 characters are ASCII digits they become
/// `yyyy-mm-dd HH:MM:SS`, anything else is kept as it is.
pub open spec fn format_time_of(s: Seq<char>) -> Seq<char> {
    if s.len() >= 14 && forall|i: int| 0 <= i < 14 ==> is_digit(s[i]) {
        s.subrange(0, 4) + "-"@ + s.subrange(4, 6) + "-"@ + s.subrange(6, 8) + " "@ + s.subrange(
            8,
            10,
        ) + ":"@ + s.subrange(10, 12) + ":"@ + s.subrange(12, 14)
    } else {
        s
    }
}

/// Formats a compact quote timestamp; see [`format_time_of`].
pub fn format_time(s: &str) -> (r: String)
    ensures
        r@ == format_time_of(s@),
{
    let v = chars_of(s);
    if v.len() < 14 {
        return owned(s);
    }
    let mut i: usize = 0;
    while i < 14
        invariant
            i <= 14 <= v@.len(),
            v@ == s@,
            forall|k: int| 0 <= k < i ==> is_digit(v@[k]),
        decreases 14 - i,
    {
        if !is_ascii_digit(v[i]) {
            assert(!is_digit(s@[i as int]));
            return owned(s);
        }
        i = i + 1;
    }
    let mut r = string_of(&v, 0, 4);
    push_str(&mut r, "-");
    push_str(&mut r, string_of(&v, 4, 6).as_str());
    push_str(&mut r, "-");
    push_str(&mut r, string_of(&v, 6, 8).as_str());
    push_str(&mut r, " ");
    push_str(&mut r, string_of(&v, 8, 10).as_str());
    push_str(&mut r, ":");
    push_str(&mut r, string_of(&v, 10, 12).as_str());
    push_str(&mut r, ":");
    push_str(&mut r, string_of(&v, 12, 14).as_str());
    r
}

/// Formatting a quote time twice changes nothing more: a formatted time
/// has `-` as its fifth character.
pub proof fn law_format_time_idempotent(s: Seq<char>)
    ensures
        format_time_of(format_time_of(s)) == format_time_of(s),
{
    reveal_strlit("-");
    let f = format_time_of(s);
    if f != s {
        assert(f[4] == '-');
        assert(!is_digit(f[4]));
    }
}

/// Text that `encoding_rs` decodes from bytes read as GBK (a leading
/// byte-order mark instead selects the encoding it names; malformed sequences
/// are replaced); a function of the bytes alone.
pub uninterp spec fn gbk_text(bytes: Seq<u8>) -> Seq<char>;

/// `std::str::from_utf8`, taken as an owned string: the text exactly when the
/// bytes are valid UTF-8, and then the characters they encode.
#[verifier::external_body]
fn utf8_text(bytes: &[u8]) -> (r: Option<String>)
    ensures
        r is Some <==> vstd::utf8::valid_utf8(bytes@),
        r matches Some(s) ==> s@ == vstd::utf8::decode_utf8(bytes@),
{
    std::str::from_utf8(bytes).ok().map(|s| s.to_owned())
}

/// `encoding_rs::GBK.decode` (which follows a leading byte-order mark to the
/// encoding it names): the decoded text, named [`gbk_text`]; what the
/// decoder's tables map each byte sequence to is not stated here.
#[verifier::external_body]
fn gbk_decode(bytes: &[u8]) -> (r: String)
    ensures
        r@ == gbk_text(bytes@),
{
    let (decoded, _, _) = encoding_rs::GBK.decode(bytes);
    decoded.into_owned()
}

/// Text of a quote-source response: the body as UTF-8 when it is valid
/// UTF-8, otherwise as GBK (the legacy encoding of the Sina and Tencent
/// endpoints).
pub open spec fn body_text_of(bytes: Seq<u8>) -> Seq<char> {
    if vstd::utf8::valid_utf8(bytes) {
        vstd::utf8::decode_utf8(bytes)
    } else {
        gbk_text(bytes)
    }
}

/// Decodes a response body; see [`body_text_of`].
pub fn body_text(bytes: &[u8]) -> (r: String)
    ensures
        r@ == body_text_of(bytes@),
{
    match utf8_text(bytes) {
        Some(s) => s,
        None => gbk_decode(bytes),
    }
}

} // verus!
