//! CSV report text (RFC 4180 rows) and download file names.
use vstd::prelude::*;

use crate::text::{chars_of, has_char, push_char, push_str, views};

verus! {

broadcast use vstd::string::group_string_axioms;

/// `s` with every `"` doubled.
pub open spec fn double_quotes(s: Seq<char>) -> Seq<char>
    decreases s.len(),
{
    if s.len() == 0 {
        Seq::empty()
    } else {
        double_quotes(s.drop_last()) + (if s.last() == '"' {
            seq!['"', '"']
        } else {
            seq![s.last()]
        })
    }
}

/// A CSV field must be quoted when it holds `,`, `"`, a line feed or a
/// carriage return.
pub open spec fn needs_quoting(s: Seq<char>) -> bool {
    s.contains(',') || s.contains('"') || s.contains('\n') || s.contains('\r')
}

/// The CSV text of one field.
pub open spec fn esc_of(s: Seq<char>) -> Seq<char> {
    if needs_quoting(s) {
        seq!['"'] + double_quotes(s) + seq!['"']
    } else {
        s
    }
}

/// Escapes one CSV field: fields holding `,`, `"` or a line break are wrapped
/// in double quotes, with inner quotes doubled; other fields are unchanged.
pub fn esc(s: &str) -> (r: String)
    ensures
        r@ == esc_of(s@),
{
    let v = chars_of(s);
    if has_char(&v, ',') || has_char(&v, '"') || has_char(&v, '\n') || has_char(&v, '\r') {
        let mut r = String::new();
        push_char(&mut r, '"');
        let mut i: usize = 0;
        while i < v.len()
            invariant
                i <= v@.len(),
                r@ == seq!['"'] + double_quotes(v@.take(i as int)),
            decreases v@.len() - i,
        {
            let ghost before = r@;
            assert(v@.take(i + 1).drop_last() =~= v@.take(i as int));
            if v[i] == '"' {
                push_char(&mut r, '"');
                push_char(&mut r, '"');
            } else {
                push_char(&mut r, v[i]);
            }
            assert(r@ =~= seq!['"'] + double_quotes(v@.take(i + 1)));
            i = i + 1;
        }
        assert(v@.take(v@.len() as int) =~= v@);
        push_char(&mut r, '"');
        r
    } else {
        crate::text::owned(s)
    }
}

/// Reading back a quoted field's inner text: every `""` becomes `"`.
pub open spec fn undouble(s: Seq<char>) -> Seq<char>
    decreases s.len(),
{
    if s.len() == 0 {
        Seq::empty()
    } else if s.len() >= 2 && s.last() == '"' && s[s.len() - 2] == '"' {
        undouble(s.take(s.len() - 2)).push('"')
    } else {
        undouble(s.drop_last()).push(s.last())
    }
}

/// Reading back one CSV field: a quoted field loses its quotes and its
/// doubled quotes; any other field is taken as it is.
pub open spec fn unescape_of(f: Seq<char>) -> Seq<char> {
    if f.len() >= 2 && f[0] == '"' && f.last() == '"' {
        undouble(f.subrange(1, f.len() - 1))
    } else {
        f
    }
}

proof fn lemma_undouble_double(s: Seq<char>)
    ensures
        undouble(double_quotes(s)) == s,
    decreases s.len(),
{
    if s.len() > 0 {
        let p = s.drop_last();
        let d = double_quotes(s);
        lemma_undouble_double(p);
        if s.last() == '"' {
            assert(d.take(d.len() - 2) =~= double_quotes(p));
        } else {
            assert(d.drop_last() =~= double_quotes(p));
        }
        assert(s =~= p.push(s.last()));
    }
}

/// A field written by [`esc`] reads back as the text it was made from (RFC 4180
/// round trip).
pub proof fn law_escape_round_trip(s: Seq<char>)
    ensures
        unescape_of(esc_of(s)) == s,
{
    if needs_quoting(s) {
        let f = esc_of(s);
        assert(f.subrange(1, f.len() - 1) =~= double_quotes(s));
        lemma_undouble_double(s);
    } else {
        if s.len() >= 2 && s[0] == '"' {
            assert(s.contains('"'));
        }
    }
}

/// Cells joined by commas.
pub open spec fn join_commas(cells: Seq<Seq<char>>) -> Seq<char>
    decreases cells.len(),
{
    if cells.len() == 0 {
        Seq::empty()
    } else if cells.len() == 1 {
        cells[0]
    } else {
        join_commas(cells.drop_last()) + seq![','] + cells.last()
    }
}

/// One CSV record: the cells joined by commas, ended by CRLF.
pub open spec fn row_of(cells: Seq<Seq<char>>) -> Seq<char> {
    join_commas(cells) + seq!['\r', '\n']
}

/// Joins already escaped cells into one CSV record ending in CRLF.
pub fn join_row(cells: &[String]) -> (r: String)
    ensures
        r@ == row_of(views(cells@)),
{
    let mut s = String::new();
    let mut i: usize = 0;
    while i < cells.len()
        invariant
            i <= cells@.len(),
            s@ == join_commas(views(cells@.take(i as int))),
        decreases cells@.len() - i,
    {
        let ghost prev = views(cells@.take(i as int));
        let ghost next = views(cells@.take(i + 1));
        assert(next.drop_last() =~= prev);
        if i > 0 {
            push_char(&mut s, ',');
        }
        push_str(&mut s, cells[i].as_str());
        proof {
            if i == 0 {
                assert(s@ =~= next[0]);
            }
        }
        i = i + 1;
    }
    assert(cells@.take(cells@.len() as int) =~= cells@);
    push_str(&mut s, "\r\n");
    proof {
        reveal_strlit("\r\n");
    }
    assert(s@ =~= row_of(views(cells@)));
    s
}

/// Bytes kept as they are in a `filename*` value.
pub open spec fn unreserved(b: u8) -> bool {
    ||| 0x41 <= b && b <= 0x5a
    ||| 0x61 <= b && b <= 0x7a
    ||| 0x30 <= b && b <= 0x39
    ||| b == 0x2d || b == 0x5f || b == 0x2e || b == 0x7e
}

/// Upper-case hexadecimal digit of a nibble.
pub open spec fn hex_digit(n: u8) -> char {
    if n < 10 {
        ((n + 0x30) as u8) as char
    } else {
        ((n - 10 + 0x41) as u8) as char
    }
}

/// Encoding of one byte: itself when unreserved, else `%` and two upper-case
/// hex digits.
pub open spec fn pct_byte(b: u8) -> Seq<char> {
    if unreserved(b) {
        seq![b as char]
    } else {
        seq!['%', hex_digit(b / 16), hex_digit(b % 16)]
    }
}

/// Percent-encoding of a byte string.
pub open spec fn percent_encoded(bs: Seq<u8>) -> Seq<char>
    decreases bs.len(),
{
    if bs.len() == 0 {
        Seq::empty()
    } else {
        percent_encoded(bs.drop_last()) + pct_byte(bs.last())
    }
}

/// Characters that can stand in a `filename*` value without quoting: ASCII
/// letters, digits, `-_.~` and the `%` of an escape.
pub open spec fn header_safe(c: char) -> bool {
    ||| 'A' <= c && c <= 'Z'
    ||| 'a' <= c && c <= 'z'
    ||| '0' <= c && c <= '9'
    ||| c == '-' || c == '_' || c == '.' || c == '~' || c == '%'
}

/// Every character of a percent-encoded byte string is header-safe, whatever
/// the bytes (non-ASCII file names included).
pub proof fn law_percent_encoded_is_header_safe(bs: Seq<u8>)
    ensures
        forall|i: int|
            0 <= i < percent_encoded(bs).len() ==> header_safe(#[trigger] percent_encoded(bs)[i]),
    decreases bs.len(),
{
    if bs.len() > 0 {
        law_percent_encoded_is_header_safe(bs.drop_last());
        let p = percent_encoded(bs.drop_last());
        let b = bs.last();
        let q = pct_byte(b);
        assert forall|j: int| 0 <= j < q.len() implies header_safe(#[trigger] q[j]) by {
            if unreserved(b) {
                assert(q[j] == b as char);
            } else {
                let hi = b / 16;
                let lo = b % 16;
                assert(hi < 16 && lo < 16);
                if j == 1 {
                    assert(q[j] == hex_digit(hi));
                } else if j == 2 {
                    assert(q[j] == hex_digit(lo));
                }
            }
        }
        assert forall|i: int| 0 <= i < (p + q).len() implies header_safe(#[trigger] (p + q)[i]) by {
            if i < p.len() {
                assert((p + q)[i] == p[i]);
            } else {
                assert((p + q)[i] == q[i - p.len()]);
            }
        }
    }
}

/// Upper-case hexadecimal digit of a nibble.
fn hex_char(n: u8) -> (c: char)
    requires
        n < 16,
    ensures
        c == hex_digit(n),
{
    if n < 10 {
        (n + 0x30) as char
    } else {
        (n - 10 + 0x41) as char
    }
}

/// Minimal percent-encoding of a file name for `filename*`: the UTF-8 bytes
/// of the name, keeping ASCII letters, digits and `-_.~`.
pub fn percent_encode(s: &str) -> (r: String)
    ensures
        r@ == percent_encoded(vstd::utf8::encode_utf8(s@)),
{
    let bytes = s.as_bytes();
    let mut out = String::new();
    let mut i: usize = 0;
    while i < bytes.len()
        invariant
            i <= bytes@.len(),
            bytes@ == vstd::utf8::encode_utf8(s@),
            out@ == percent_encoded(bytes@.take(i as int)),
        decreases bytes@.len() - i,
    {
        let b = bytes[i];
        assert(bytes@.take(i + 1).drop_last() =~= bytes@.take(i as int));
        if (0x41 <= b && b <= 0x5a) || (0x61 <= b && b <= 0x7a) || (0x30 <= b && b <= 0x39) || b
            == 0x2d || b == 0x5f || b == 0x2e || b == 0x7e {
            push_char(&mut out, b as char);
        } else {
            push_char(&mut out, '%');
            push_char(&mut out, hex_char(b / 16));
            push_char(&mut out, hex_char(b % 16));
        }
        assert(out@ =~= percent_encoded(bytes@.take(i + 1)));
        i = i + 1;
    }
    assert(bytes@.take(bytes@.len() as int) =~= bytes@);
    out
}

/// `Content-Disposition` value of a CSV download: the plain file name, and
/// its percent-encoded UTF-8 bytes as `filename*` (RFC 5987).
pub open spec fn disposition_of(filename: Seq<char>) -> Seq<char> {
    "attachment; filename=\""@ + filename + "\"; filename*=UTF-8''"@ + percent_encoded(
        vstd::utf8::encode_utf8(filename),
    )
}

/// The `Content-Disposition` header of a CSV download; see [`disposition_of`].
pub fn content_disposition(filename: &str) -> (r: String)
    ensures
        r@ == disposition_of(filename@),
{
    let mut r = String::new();
    push_str(&mut r, "attachment; filename=\"");
    push_str(&mut r, filename);
    push_str(&mut r, "\"; filename*=UTF-8''");
    let enc = percent_encode(filename);
    push_str(&mut r, enc.as_str());
    r
}

/// Query of the export endpoints: an optional row limit.
#[derive(Debug, Clone, Copy, Default)]
pub struct LimitQuery {
    pub limit: Option<i64>,
}

/// The requested limit (or `default`) brought into `1..=cap`.
pub open spec fn clamp_limit_of(limit: Option<i64>, default: i64, cap: i64) -> i64 {
    let v = match limit {
        Some(v) => v,
        None => default,
    };
    if v < 1 {
        1
    } else if v > cap {
        cap
    } else {
        v
    }
}

/// Row limit of an export: the query's limit or `default`, clamped to
/// `1..=cap`.
pub fn clamp_limit(q: &LimitQuery, default: i64, cap: i64) -> (r: i64)
    requires
        1 <= cap,
    ensures
        r == clamp_limit_of(q.limit, default, cap),
{
    let v = match q.limit {
        Some(v) => v,
        None => default,
    };
    if v < 1 {
        1
    } else if v > cap {
        cap
    } else {
        v
    }
}

} // verus!
