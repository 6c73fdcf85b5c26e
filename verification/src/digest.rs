//! The text encodings and the hash that block identities are made of:
//! JSON string quoting (serde_json), SHA-256 (sha2) and lowercase hex (hex).

use sha2::Digest;
use vstd::prelude::*;

use crate::text::digit_char;

verus! {

/// The lowercase hexadecimal digit of `d`, for `0 <= d < 16`.
pub open spec fn hex_digit(d: int) -> char {
    if d < 10 {
        digit_char(d)
    } else {
        ((d - 10 + 97) as u32) as char
    }
}

/// A lowercase hexadecimal digit: `0`-`9` or `a`-`f`.
pub open spec fn is_lower_hex(c: char) -> bool {
    ('0' <= c && c <= '9') || ('a' <= c && c <= 'f')
}

/// The two lowercase hex digits of a byte, high nibble first.
pub open spec fn hex_byte(b: u8) -> Seq<char> {
    seq![hex_digit((b / 16) as int), hex_digit((b % 16) as int)]
}

/// Lowercase hex text of a byte sequence, two digits per byte.
pub open spec fn hex_lower(bytes: Seq<u8>) -> Seq<char>
    decreases bytes.len(),
{
    if bytes.len() == 0 {
        Seq::empty()
    } else {
        hex_byte(bytes[0]) + hex_lower(bytes.drop_first())
    }
}

/// How JSON writes one character inside a string literal: quote and
/// backslash are escaped, the control characters below U+0020 use their
/// short escape or `\u00XX` with lowercase hex, every other character is
/// written as it is.
pub open spec fn json_escape_char(c: char) -> Seq<char> {
    if c == '"' {
        seq!['\\', '"']
    } else if c == '\\' {
        seq!['\\', '\\']
    } else if c == '\x08' {
        seq!['\\', 'b']
    } else if c == '\t' {
        seq!['\\', 't']
    } else if c == '\n' {
        seq!['\\', 'n']
    } else if c == '\x0C' {
        seq!['\\', 'f']
    } else if c == '\r' {
        seq!['\\', 'r']
    } else if (c as u32) < 0x20 {
        seq![
            '\\',
            'u',
            '0',
            '0',
            hex_digit(((c as u32) / 16) as int),
            hex_digit(((c as u32) % 16) as int),
        ]
    } else {
        seq![c]
    }
}

/// The escaped contents of a JSON string literal.
pub open spec fn json_escape(s: Seq<char>) -> Seq<char>
    decreases s.len(),
{
    if s.len() == 0 {
        Seq::empty()
    } else {
        json_escape_char(s[0]) + json_escape(s.drop_first())
    }
}

/// A text as a JSON string literal: escaped and between double quotes.
pub open spec fn json_quote(s: Seq<char>) -> Seq<char> {
    seq!['"'] + json_escape(s) + seq!['"']
}

/// The SHA-256 digest of a byte sequence.
pub uninterp spec fn sha256_digest(bytes: Seq<u8>) -> Seq<u8>;

/// `serde_json::to_string` on a `str`: the text as a JSON string literal.
/// Serializing a `str` into memory has no failing path in serde_json (its
/// writer is a `Vec`), so the error arm is never taken.
#[verifier::external_body]
pub(crate) fn json_quote_text(text: &str) -> (r: String)
    ensures
        r@ == json_quote(text@),
{
    match serde_json::to_string(text) {
        Ok(quoted) => quoted,
        Err(_) => String::new(),
    }
}

/// `sha2::Sha256`: a new hasher, one `update` with the bytes, `finalize`.
/// The result is the digest named `sha256_digest` of the bytes; the
/// output array has 32 bytes.
#[verifier::external_body]
pub(crate) fn sha256(bytes: &[u8]) -> (r: Vec<u8>)
    ensures
        r@ == sha256_digest(bytes@),
        r@.len() == 32,
{
    let mut hasher = sha2::Sha256::new();
    hasher.update(bytes);
    hasher.finalize().to_vec()
}

/// `hex::encode`: two lowercase hex digits per byte, in order.
#[verifier::external_body]
pub(crate) fn hex_encode(bytes: &[u8]) -> (r: String)
    ensures
        r@ == hex_lower(bytes@),
{
    hex::encode(bytes)
}

/// Hex text has two characters per byte.
pub proof fn lemma_hex_lower_len(bytes: Seq<u8>)
    ensures
        hex_lower(bytes).len() == 2 * bytes.len(),
    decreases bytes.len(),
{
    if bytes.len() > 0 {
        lemma_hex_lower_len(bytes.drop_first());
    }
}

/// Hex text is made of lowercase hex digits only.
pub proof fn lemma_hex_lower_digits(bytes: Seq<u8>)
    ensures
        forall|i: int| 0 <= i < hex_lower(bytes).len() ==> is_lower_hex(#[trigger] hex_lower(bytes)[i]),
    decreases bytes.len(),
{
    if bytes.len() > 0 {
        lemma_hex_lower_digits(bytes.drop_first());
        let b = bytes[0];
        assert(0 <= b / 16 < 16 && 0 <= b % 16 < 16);
        let rest = hex_lower(bytes.drop_first());
        assert forall|i: int| 0 <= i < hex_lower(bytes).len() implies is_lower_hex(
            #[trigger] hex_lower(bytes)[i],
        ) by {
            if i >= 2 {
                assert(hex_lower(bytes)[i] == rest[i - 2]);
            }
        }
    }
}

/// The value of a hexadecimal digit (either case); -1 for any other
/// character.
pub open spec fn hex_value(c: char) -> int {
    if '0' <= c && c <= '9' {
        (c as u32) as int - 48
    } else if 'a' <= c && c <= 'f' {
        (c as u32) as int - 87
    } else if 'A' <= c && c <= 'F' {
        (c as u32) as int - 55
    } else {
        -1
    }
}

/// Hex text read back: each pair of digits, high nibble first, gives one
/// byte.
pub open spec fn hex_reads_as(h: Seq<char>, bytes: Seq<u8>) -> bool {
    &&& h.len() == 2 * bytes.len()
    &&& forall|i: int|
        0 <= i < bytes.len() ==> hex_value(#[trigger] h[2 * i]) * 16 + hex_value(h[2 * i + 1])
            == bytes[i] as int
}

/// Lowercase hex text reads back as the bytes it was made from.
pub proof fn lemma_hex_lower_reads_back(bytes: Seq<u8>)
    ensures
        hex_reads_as(hex_lower(bytes), bytes),
    decreases bytes.len(),
{
    lemma_hex_lower_len(bytes);
    if bytes.len() > 0 {
        let rest = bytes.drop_first();
        lemma_hex_lower_reads_back(rest);
        let h = hex_lower(bytes);
        let hr = hex_lower(rest);
        let b = bytes[0];
        assert(h == hex_byte(b) + hr);
        assert(hex_value(hex_digit((b / 16) as int)) == b / 16);
        assert(hex_value(hex_digit((b % 16) as int)) == b % 16);
        assert forall|i: int| 0 <= i < bytes.len() implies hex_value(#[trigger] h[2 * i]) * 16
            + hex_value(h[2 * i + 1]) == bytes[i] as int by {
            if i > 0 {
                assert(h[2 * i] == hr[2 * (i - 1)]);
                assert(h[2 * i + 1] == hr[2 * (i - 1) + 1]);
                assert(bytes[i] == rest[i - 1]);
            }
        }
    }
}

/// The character a short JSON escape (`\x`) stands for, if `x` is one.
pub open spec fn json_short_escape(x: char) -> Option<char> {
    if x == '"' {
        Some('"')
    } else if x == '\\' {
        Some('\\')
    } else if x == '/' {
        Some('/')
    } else if x == 'b' {
        Some('\x08')
    } else if x == 't' {
        Some('\t')
    } else if x == 'n' {
        Some('\n')
    } else if x == 'f' {
        Some('\x0C')
    } else if x == 'r' {
        Some('\r')
    } else {
        None
    }
}

/// The value of the four hex digits of a `\uXXXX` escape at the start of
/// `e` (which begins with the backslash).
pub open spec fn json_u_value(e: Seq<char>) -> int {
    hex_value(e[2]) * 4096 + hex_value(e[3]) * 256 + hex_value(e[4]) * 16 + hex_value(e[5])
}

/// The contents of a JSON string literal read back, as a JSON reader
/// reads them: `None` when they are not valid (an unescaped quote or
/// control character, or an unknown escape). `\uXXXX` is read for code
/// points outside the surrogate range.
pub open spec fn json_unescape(e: Seq<char>) -> Option<Seq<char>>
    decreases e.len(),
{
    if e.len() == 0 {
        Some(Seq::empty())
    } else if e[0] == '\\' {
        if e.len() >= 2 && json_short_escape(e[1]) is Some {
            match json_unescape(e.skip(2)) {
                Some(rest) => Some(seq![json_short_escape(e[1])->0] + rest),
                None => None,
            }
        } else if e.len() >= 6 && e[1] == 'u' && hex_value(e[2]) >= 0 && hex_value(e[3]) >= 0
            && hex_value(e[4]) >= 0 && hex_value(e[5]) >= 0 && !(0xD800 <= json_u_value(e)
            <= 0xDFFF) {
            match json_unescape(e.skip(6)) {
                Some(rest) => Some(seq![((json_u_value(e)) as u32) as char] + rest),
                None => None,
            }
        } else {
            None
        }
    } else if e[0] == '"' || (e[0] as u32) < 0x20 {
        None
    } else {
        match json_unescape(e.drop_first()) {
            Some(rest) => Some(seq![e[0]] + rest),
            None => None,
        }
    }
}

/// The text a JSON string literal stands for, when it is one.
pub open spec fn json_string_value(q: Seq<char>) -> Option<Seq<char>> {
    if q.len() >= 2 && q[0] == '"' && q.last() == '"' {
        json_unescape(q.subrange(1, q.len() - 1))
    } else {
        None
    }
}

proof fn lemma_escape_char_reads_back(c: char, tail: Seq<char>)
    ensures
        json_unescape(json_escape_char(c) + tail) == match json_unescape(tail) {
            Some(rest) => Some(seq![c] + rest),
            None => None::<Seq<char>>,
        },
{
    let e = json_escape_char(c) + tail;
    let u = c as u32;
    if c == '"' || c == '\\' || c == '\x08' || c == '\t' || c == '\n' || c == '\x0C' || c == '\r' {
        assert(e.skip(2) =~= tail);
    } else if u < 0x20 {
        assert(e.skip(6) =~= tail);
        assert(hex_value(hex_digit((u / 16) as int)) == u / 16);
        assert(hex_value(hex_digit((u % 16) as int)) == u % 16);
        assert(hex_value(e[2]) == 0 && hex_value(e[3]) == 0);
        assert(json_u_value(e) == u);
        assert(((json_u_value(e)) as u32) as char == c);
    } else {
        assert(e.drop_first() =~= tail);
    }
}

/// JSON escaping reads back: the escaped contents of a string literal
/// read as the text itself.
pub proof fn lemma_json_escape_reads_back(s: Seq<char>)
    ensures
        json_unescape(json_escape(s)) == Some(s),
    decreases s.len(),
{
    if s.len() > 0 {
        lemma_json_escape_reads_back(s.drop_first());
        lemma_escape_char_reads_back(s[0], json_escape(s.drop_first()));
        assert(seq![s[0]] + s.drop_first() =~= s);
    } else {
        assert(json_escape(s) =~= Seq::<char>::empty());
    }
}

/// A quoted text is a JSON string literal that stands for the text.
pub proof fn lemma_json_quote_reads_back(s: Seq<char>)
    ensures
        json_string_value(json_quote(s)) == Some(s),
{
    lemma_json_escape_reads_back(s);
    let q = json_quote(s);
    assert(q.subrange(1, q.len() - 1) =~= json_escape(s));
}

} // verus!
