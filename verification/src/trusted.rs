//! The calls this library makes into std and into other crates, each with the
//! contract that the library relies on. Nothing here is proved: every item is
//! believed as written, and each doc comment says what is claimed.

use base64::Engine;
use qrcode::render::unicode::Dense1x2;
use rand::Rng;
use crate::output::QrCodeError;
use vstd::prelude::*;
use vstd::string::*;
use vstd::utf8::*;

verus! {

// ---------------------------------------------------------------------------
// std: strings and characters
// ---------------------------------------------------------------------------

/// `String::push` appends one character at the end of the string.
pub assume_specification[ String::push ](s: &mut String, ch: char)
    ensures
        final(s)@ == old(s)@.push(ch),
;

/// Whether a character has the Unicode `White_Space` property, which `char::is_whitespace`
/// tests: tab, line feed, vertical tab, form feed, carriage return, space, U+0085, U+00A0,
/// U+1680, U+2000 to U+200A, U+2028, U+2029, U+202F, U+205F and U+3000.
pub open spec fn whitespace_char(c: char) -> bool {
    let v = c as u32;
    ||| 0x09 <= v && v <= 0x0d
    ||| v == 0x20
    ||| v == 0x85
    ||| v == 0xa0
    ||| v == 0x1680
    ||| 0x2000 <= v && v <= 0x200a
    ||| v == 0x2028
    ||| v == 0x2029
    ||| v == 0x202f
    ||| v == 0x205f
    ||| v == 0x3000
}

/// Calls `char::is_whitespace`. Claimed: the result is `whitespace_char(c)`, the
/// characters of the Unicode `White_Space` property.
#[verifier::external_body]
pub(crate) fn char_is_whitespace(c: char) -> (r: bool)
    ensures
        r == whitespace_char(c),
{
    c.is_whitespace()
}

/// Whether `char::is_numeric` holds of a character beyond ASCII (Unicode general
/// categories Nd, Nl and No).
pub uninterp spec fn unicode_numeric(c: char) -> bool;

/// Whether `char::is_numeric` holds: among ASCII characters exactly the decimal digits;
/// beyond ASCII `unicode_numeric`.
pub open spec fn numeric_char(c: char) -> bool {
    if (c as u32) < 128 {
        '0' <= c && c <= '9'
    } else {
        unicode_numeric(c)
    }
}

/// Calls `char::is_numeric`. Claimed: the result is `numeric_char(c)`.
#[verifier::external_body]
pub(crate) fn char_is_numeric(c: char) -> (r: bool)
    ensures
        r == numeric_char(c),
        (c as u32) >= 128 ==> r == unicode_numeric(c),
{
    c.is_numeric()
}

/// ASCII upper-casing of a character sequence: `a`..`z` become `A`..`Z`, all else stays.
pub open spec fn ascii_uppercase(s: Seq<char>) -> Seq<char> {
    Seq::new(
        s.len(),
        |i: int|
            if 'a' <= s[i] && s[i] <= 'z' {
                ((s[i] as u32) - 32) as char
            } else {
                s[i]
            },
    )
}

/// What `str::to_uppercase` returns for a string that is not all ASCII (full Unicode
/// case mapping).
pub uninterp spec fn unicode_uppercased(s: Seq<char>) -> Seq<char>;

/// What `str::to_uppercase` returns: the ASCII upper-casing for an ASCII string, and
/// `unicode_uppercased` otherwise.
pub open spec fn uppercased(s: Seq<char>) -> Seq<char> {
    if is_ascii_chars(s) {
        ascii_uppercase(s)
    } else {
        unicode_uppercased(s)
    }
}

/// Calls `str::to_uppercase`. Claimed: the result is `uppercased(s@)`.
#[verifier::external_body]
pub(crate) fn to_uppercase(s: &str) -> (r: String)
    ensures
        r@ == uppercased(s@),
        !is_ascii_chars(s@) ==> r@ == unicode_uppercased(s@),
{
    s.to_uppercase()
}

// ---------------------------------------------------------------------------
// urlencoding
// ---------------------------------------------------------------------------

/// Bytes that percent-encoding leaves as they are: ASCII letters, digits and `-._~`.
pub open spec fn url_safe_byte(b: u8) -> bool {
    ||| ('0' as u8) <= b && b <= ('9' as u8)
    ||| ('A' as u8) <= b && b <= ('Z' as u8)
    ||| ('a' as u8) <= b && b <= ('z' as u8)
    ||| b == ('-' as u8)
    ||| b == ('.' as u8)
    ||| b == ('_' as u8)
    ||| b == ('~' as u8)
}

/// An upper-case hexadecimal digit for a value below 16.
pub open spec fn hex_upper(d: int) -> char {
    if d < 10 {
        (('0' as int) + d) as char
    } else {
        (('A' as int) + d - 10) as char
    }
}

/// Percent-encoding of a byte sequence: safe bytes stay, every other byte `b`
/// becomes `%` and two upper-case hex digits.
pub open spec fn percent_encoded(bytes: Seq<u8>) -> Seq<char>
    decreases bytes.len(),
{
    if bytes.len() == 0 {
        Seq::empty()
    } else {
        let b = bytes.last();
        percent_encoded(bytes.drop_last()) + if url_safe_byte(b) {
            seq![b as char]
        } else {
            seq!['%', hex_upper((b as int) / 16), hex_upper((b as int) % 16)]
        }
    }
}

/// Calls `urlencoding::encode`. Claimed: the result is the percent-encoding of the
/// UTF-8 bytes of `s`.
#[verifier::external_body]
pub(crate) fn url_encode(s: &str) -> (r: String)
    ensures
        r@ == percent_encoded(s.spec_bytes()),
{
    urlencoding::encode(s).into_owned()
}

// ---------------------------------------------------------------------------
// base64
// ---------------------------------------------------------------------------

/// The character of the standard base64 alphabet for a 6-bit value.
pub open spec fn base64_char(v: int) -> char {
    if v < 26 {
        (('A' as int) + v) as char
    } else if v < 52 {
        (('a' as int) + v - 26) as char
    } else if v < 62 {
        (('0' as int) + v - 52) as char
    } else if v == 62 {
        '+'
    } else {
        '/'
    }
}

/// Standard base64 (RFC 4648, alphabet with `+` and `/`, padded with `=`).
pub open spec fn base64_standard(d: Seq<u8>) -> Seq<char>
    decreases d.len(),
{
    if d.len() == 0 {
        Seq::empty()
    } else if d.len() == 1 {
        let a = d[0] as int;
        seq![base64_char(a / 4), base64_char((a % 4) * 16), '=', '=']
    } else if d.len() == 2 {
        let a = d[0] as int;
        let b = d[1] as int;
        seq![base64_char(a / 4), base64_char((a % 4) * 16 + b / 16), base64_char((b % 16) * 4), '=']
    } else {
        let a = d[0] as int;
        let b = d[1] as int;
        let c = d[2] as int;
        seq![
            base64_char(a / 4),
            base64_char((a % 4) * 16 + b / 16),
            base64_char((b % 16) * 4 + c / 64),
            base64_char(c % 64),
        ] + base64_standard(d.skip(3))
    }
}

/// Whether the padded base64 text of `n` bytes has a length that fits in `usize`.
pub open spec fn base64_fits(n: nat) -> bool {
    (n + 2) / 3 * 4 <= usize::MAX
}

/// Calls `Engine::encode` of `base64::engine::general_purpose::STANDARD`. Claimed: the
/// result is the padded standard base64 text of the bytes. The crate panics when the
/// encoded length does not fit in `usize`, which `requires` rules out.
#[verifier::external_body]
pub(crate) fn base64_encode(data: &[u8]) -> (r: String)
    requires
        base64_fits(data@.len()),
    ensures
        r@ == base64_standard(data@),
{
    base64::engine::general_purpose::STANDARD.encode(data)
}

// ---------------------------------------------------------------------------
// serde_json
// ---------------------------------------------------------------------------

/// A lower-case hexadecimal digit for a value below 16.
pub open spec fn hex_lower(d: int) -> char {
    if d < 10 {
        (('0' as int) + d) as char
    } else {
        (('a' as int) + d - 10) as char
    }
}

/// How a JSON string literal writes one character: quote, backslash and control
/// characters are escaped, everything else stands as it is.
pub open spec fn json_escaped_char(c: char) -> Seq<char> {
    if c == '"' {
        seq!['\\', '"']
    } else if c == '\\' {
        seq!['\\', '\\']
    } else if c == '\x08' {
        seq!['\\', 'b']
    } else if c == '\t' {
        seq!['\\', 't']
    } else if c == '\n' {
        seq!['\\', 'n']
    } else if c == '\x0c' {
        seq!['\\', 'f']
    } else if c == '\r' {
        seq!['\\', 'r']
    } else if (c as u32) < 32 {
        seq!['\\', 'u', '0', '0', hex_lower((c as int) / 16), hex_lower((c as int) % 16)]
    } else {
        seq![c]
    }
}

/// The escaped body of a JSON string literal.
pub open spec fn json_escaped(s: Seq<char>) -> Seq<char>
    decreases s.len(),
{
    if s.len() == 0 {
        Seq::empty()
    } else {
        json_escaped(s.drop_last()) + json_escaped_char(s.last())
    }
}

/// A JSON string literal: the escaped text between double quotes.
pub open spec fn json_string(s: Seq<char>) -> Seq<char> {
    seq!['"'] + json_escaped(s) + seq!['"']
}

/// Calls `serde_json::to_string` on a string slice. Claimed: the result is the JSON string
/// literal of `s`. The source serialises a `str` into an in-memory buffer, where it
/// does not fail; the error arm is never taken.
#[verifier::external_body]
pub(crate) fn json_quote(s: &str) -> (r: String)
    ensures
        r@ == json_string(s@),
{
    match serde_json::to_string(s) {
        Ok(t) => t,
        Err(_) => String::new(),
    }
}

// ---------------------------------------------------------------------------
// uuid
// ---------------------------------------------------------------------------

/// A lower-case hexadecimal digit character.
pub open spec fn is_hex_lower_char(c: char) -> bool {
    ('0' <= c && c <= '9') || ('a' <= c && c <= 'f')
}

/// Text of a random (version 4, RFC variant) UUID in lower-case hyphenated form.
pub open spec fn is_v4_uuid_text(s: Seq<char>) -> bool {
    &&& s.len() == 36
    &&& forall|i: int|
        #![trigger s[i]]
        0 <= i < 36 ==> if i == 8 || i == 13 || i == 18 || i == 23 {
            s[i] == '-'
        } else {
            is_hex_lower_char(s[i])
        }
    &&& s[14] == '4'
    &&& (s[19] == '8' || s[19] == '9' || s[19] == 'a' || s[19] == 'b')
}

/// Calls `uuid::Uuid::new_v4` and renders it with `to_string`. The value is random;
/// claimed of every outcome: it is the lower-case hyphenated text of a version 4 UUID.
#[verifier::external_body]
pub(crate) fn new_v4_uuid() -> (r: String)
    ensures
        is_v4_uuid_text(r@),
{
    uuid::Uuid::new_v4().to_string()
}

// ---------------------------------------------------------------------------
// rand
// ---------------------------------------------------------------------------

#[verifier::external_type_specification]
#[verifier::external_body]
pub struct ExThreadRng(rand::rngs::ThreadRng);

/// Calls `rand::thread_rng`. Nothing is claimed of the generator it returns.
#[verifier::external_body]
pub(crate) fn thread_rng() -> rand::rngs::ThreadRng {
    rand::thread_rng()
}

/// Calls `Rng::gen_range` on the half-open range `low..high`. The value is random; claimed
/// of every outcome: it lies in the range. The crate panics on an empty range, which
/// `requires` rules out.
#[verifier::external_body]
pub(crate) fn gen_range_u32(rng: &mut rand::rngs::ThreadRng, low: u32, high: u32) -> (r: u32)
    requires
        low < high,
    ensures
        low <= r < high,
{
    rng.gen_range(low..high)
}

// ---------------------------------------------------------------------------
// chrono
// ---------------------------------------------------------------------------

/// Whether the characters from `i` up to, not including, `j` are ASCII digits.
pub open spec fn digits_between(s: Seq<char>, i: int, j: int) -> bool {
    forall|k: int| i <= k < j ==> #[trigger] s[k] >= '0' && s[k] <= '9'
}

/// The shape of an RFC 3339 time stamp in UTC as chrono writes it: it ends with the
/// offset `+00:00`; when the year has four digits, the text is `YYYY-MM-DDTHH:MM:SS`,
/// then nothing or a `.` and 3, 6 or 9 digits of the fraction, then the offset.
pub open spec fn rfc3339_utc_text(s: Seq<char>) -> bool {
    &&& s.len() >= 6
    &&& s.subrange(s.len() - 6, s.len() as int) == "+00:00"@
    &&& ('0' <= s[0] && s[0] <= '9') ==> {
        &&& (s.len() == 25 || s.len() == 29 || s.len() == 32 || s.len() == 35)
        &&& digits_between(s, 0, 4) && s[4] == '-' && digits_between(s, 5, 7) && s[7] == '-'
        &&& digits_between(s, 8, 10) && s[10] == 'T' && digits_between(s, 11, 13) && s[13]
            == ':'
        &&& digits_between(s, 14, 16) && s[16] == ':' && digits_between(s, 17, 19)
        &&& s.len() > 25 ==> s[19] == '.' && digits_between(s, 20, s.len() - 6)
    }
}

/// Calls `chrono::Utc::now` and renders the instant with `to_rfc3339`. The value is the
/// current time; claimed of every outcome: it has the shape `rfc3339_utc_text`.
#[verifier::external_body]
pub(crate) fn utc_now_rfc3339() -> (r: String)
    ensures
        rfc3339_utc_text(r@),
{
    chrono::Utc::now().to_rfc3339()
}

// ---------------------------------------------------------------------------
// qrcode
// ---------------------------------------------------------------------------

/// What rendering a text as a QR code gives: the picture drawn with the dense 1x2
/// Unicode block characters (dark modules light, light modules dark), or the reason
/// the text cannot be encoded.
pub uninterp spec fn qr_dense_text(data: Seq<char>) -> Result<Seq<char>, QrCodeError>;

/// Calls `qrcode::QrCode::new` on the text and, when that succeeds, renders the code
/// with `render::<unicode::Dense1x2>()`, dark colour `Light`, light colour `Dark`, and
/// `build`. Claimed: the outcome is `qr_dense_text(data@)`, a function of the text alone.
#[verifier::external_body]
pub(crate) fn render_qr_dense(data: &str) -> (r: Result<String, QrCodeError>)
    ensures
        match r {
            Ok(t) => qr_dense_text(data@) == Ok::<Seq<char>, QrCodeError>(t@),
            Err(e) => qr_dense_text(data@) == Err::<Seq<char>, QrCodeError>(e),
        },
{
    match qrcode::QrCode::new(data) {
        Ok(code) => Ok(
            code.render::<Dense1x2>().dark_color(Dense1x2::Light).light_color(Dense1x2::Dark).build(),
        ),
        Err(qrcode::types::QrError::DataTooLong) => Err(QrCodeError::DataTooLong),
        Err(qrcode::types::QrError::InvalidVersion) => Err(QrCodeError::InvalidVersion),
        Err(qrcode::types::QrError::UnsupportedCharacterSet) => Err(QrCodeError::UnsupportedCharacterSet),
        Err(qrcode::types::QrError::InvalidEciDesignator) => Err(QrCodeError::InvalidEciDesignator),
        Err(qrcode::types::QrError::InvalidCharacter) => Err(QrCodeError::InvalidCharacter),
    }
}

} // verus!
