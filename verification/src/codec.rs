//! Byte encodings used on the wire: standard padded base64 for chunk
//! payloads, SHA-256 digests rendered as lowercase hex for integrity checks.
use crate::text::{decimal, push_char, push_decimal, push_text};
use vstd::prelude::*;

verus! {

/// The symbol of the standard base64 alphabet for the 6-bit value `v`.
pub open spec fn base64_symbol(v: int) -> char {
    if v < 26 {
        (('A' as int) + v) as char
    } else if v < 52 {
        (('a' as int) + (v - 26)) as char
    } else if v < 62 {
        (('0' as int) + (v - 52)) as char
    } else if v == 62 {
        '+'
    } else {
        '/'
    }
}

/// Standard base64 with `=` padding (RFC 4648, section 4).
pub open spec fn base64_encoding(data: Seq<u8>) -> Seq<char>
    decreases data.len(),
{
    if data.len() == 0 {
        seq![]
    } else if data.len() == 1 {
        let n = data[0] as int * 65536;
        seq![base64_symbol(n / 262144), base64_symbol((n / 4096) % 64), '=', '=']
    } else if data.len() == 2 {
        let n = data[0] as int * 65536 + data[1] as int * 256;
        seq![
            base64_symbol(n / 262144),
            base64_symbol((n / 4096) % 64),
            base64_symbol((n / 64) % 64),
            '=',
        ]
    } else {
        let n = data[0] as int * 65536 + data[1] as int * 256 + data[2] as int;
        seq![
            base64_symbol(n / 262144),
            base64_symbol((n / 4096) % 64),
            base64_symbol((n / 64) % 64),
            base64_symbol(n % 64),
        ] + base64_encoding(data.skip(3))
    }
}

/// The length of the padded base64 text for `n` bytes.
pub open spec fn base64_len(n: nat) -> nat {
    4 * ((n + 2) / 3)
}

/// Why base64 text was refused; the variants and fields of the base64
/// crate's `DecodeError`.
#[derive(Clone, Copy, Debug, PartialEq, Eq, Structural)]
pub enum Base64Error {
    /// A byte outside the alphabet, with its offset and value.
    InvalidByte(usize, u8),
    /// The number of symbols is impossible.
    InvalidLength(usize),
    /// The last symbol carries nonzero discarded bits, with its offset and value.
    InvalidLastSymbol(usize, u8),
    /// Padding is absent or not canonical.
    InvalidPadding,
}

/// What the standard padded engine of the base64 crate decodes `text` to.
pub uninterp spec fn base64_decoding(text: Seq<char>) -> Result<Seq<u8>, Base64Error>;

/// A successful decoding to `data`.
pub open spec fn decoded(data: Seq<u8>) -> Result<Seq<u8>, Base64Error> {
    Ok(data)
}

/// A decoding refused with `e`.
pub open spec fn refused(e: Base64Error) -> Result<Seq<u8>, Base64Error> {
    Err(e)
}

/// The SHA-256 digest of `data`.
pub uninterp spec fn sha256_digest(data: Seq<u8>) -> Seq<u8>;

/// The message that the base64 crate displays for `e`.
pub open spec fn base64_error_message(e: Base64Error) -> Seq<char> {
    match e {
        Base64Error::InvalidByte(index, byte) => "Invalid symbol "@ + decimal(byte as nat)
            + ", offset "@ + decimal(index as nat) + "."@,
        Base64Error::InvalidLength(len) => "Invalid input length: "@ + decimal(len as nat),
        Base64Error::InvalidLastSymbol(index, byte) => "Invalid last symbol "@ + decimal(
            byte as nat,
        ) + ", offset "@ + decimal(index as nat) + "."@,
        Base64Error::InvalidPadding => "Invalid padding"@,
    }
}

/// The lowercase hex digit of `d` (below 16).
pub open spec fn hex_digit(d: nat) -> char {
    if d < 10 {
        crate::text::digit_char(d)
    } else if d == 10 {
        'a'
    } else if d == 11 {
        'b'
    } else if d == 12 {
        'c'
    } else if d == 13 {
        'd'
    } else if d == 14 {
        'e'
    } else {
        'f'
    }
}

/// Two lowercase hex digits per byte, most significant first.
pub open spec fn hex_lower(bytes: Seq<u8>) -> Seq<char>
    decreases bytes.len(),
{
    if bytes.len() == 0 {
        seq![]
    } else {
        hex_lower(bytes.drop_last()) + seq![
            hex_digit((bytes.last() / 16) as nat),
            hex_digit((bytes.last() % 16) as nat),
        ]
    }
}

/// Hex text has two lowercase digits per byte, the high half first: digit
/// `d` is `0`..`9` then `a`..`f`.
pub proof fn lemma_hex_lower_digits(bytes: Seq<u8>)
    ensures
        hex_lower(bytes).len() == 2 * bytes.len(),
        forall|i: int|
            0 <= i < bytes.len() ==> {
                &&& hex_lower(bytes)[2 * i] as int == hex_char_code((#[trigger] bytes[i] / 16) as nat)
                &&& hex_lower(bytes)[2 * i + 1] as int == hex_char_code((bytes[i] % 16) as nat)
            },
    decreases bytes.len(),
{
    if bytes.len() > 0 {
        let rest = bytes.drop_last();
        lemma_hex_lower_digits(rest);
        assert forall|d: nat| d < 16 implies hex_digit(d) as int == hex_char_code(d) by {}
        assert forall|i: int| 0 <= i < bytes.len() implies {
            &&& hex_lower(bytes)[2 * i] as int == hex_char_code((#[trigger] bytes[i] / 16) as nat)
            &&& hex_lower(bytes)[2 * i + 1] as int == hex_char_code((bytes[i] % 16) as nat)
        } by {
            if i < rest.len() {
                assert(rest[i] == bytes[i]);
            }
        }
    }
}

/// The code of the lowercase hex digit of `d`.
pub open spec fn hex_char_code(d: nat) -> int {
    if d < 10 {
        '0' as int + d
    } else {
        'a' as int + d - 10
    }
}

/// The lowercase hex rendering of the SHA-256 digest of `data`.
pub open spec fn sha256_hex(data: Seq<u8>) -> Seq<char> {
    hex_lower(sha256_digest(data))
}

/// Calls `Engine::encode` of the base64 crate's `STANDARD` engine: the
/// padded RFC 4648 text, which that engine decodes back to `data`.
#[verifier::external_body]
pub(crate) fn encode_base64(data: &[u8]) -> (r: String)
    requires
        base64_len(data@.len()) <= usize::MAX,
    ensures
        r@ == base64_encoding(data@),
        base64_decoding(r@) == decoded(data@),
{
    base64::Engine::encode(&base64::engine::general_purpose::STANDARD, data)
}

/// The room the base64 crate's decoder sets aside for `n` bytes of text:
/// three bytes per started group of four.
pub open spec fn decode_capacity(n: nat) -> nat {
    3 * ((n + 3) / 4)
}

/// Calls `Engine::decode` of the base64 crate's `STANDARD` engine; what it
/// returns is named, not stated, beyond that it fits the buffer the
/// decoder sets aside; its error is carried over variant by variant.
#[verifier::external_body]
pub(crate) fn decode_base64(text: &str) -> (r: Result<Vec<u8>, Base64Error>)
    ensures
        match r {
            Ok(v) => base64_decoding(text@) == decoded(v@) && v@.len() <= decode_capacity(
                vstd::utf8::encode_utf8(text@).len(),
            ),
            Err(e) => base64_decoding(text@) == refused(e),
        },
{
    match base64::Engine::decode(&base64::engine::general_purpose::STANDARD, text) {
        Ok(v) => Ok(v),
        Err(base64::DecodeError::InvalidByte(i, b)) => Err(Base64Error::InvalidByte(i, b)),
        Err(base64::DecodeError::InvalidLength(n)) => Err(Base64Error::InvalidLength(n)),
        Err(base64::DecodeError::InvalidLastSymbol(i, b)) => Err(Base64Error::InvalidLastSymbol(i, b)),
        Err(base64::DecodeError::InvalidPadding) => Err(Base64Error::InvalidPadding),
    }
}

/// Calls `Sha256::new`, `update` and `finalize` of the sha2 crate: the
/// 32-byte digest, named, not stated.
#[verifier::external_body]
pub(crate) fn sha256(data: &[u8]) -> (r: Vec<u8>)
    ensures
        r@ == sha256_digest(data@),
        r@.len() == 32,
{
    let mut hasher = <sha2::Sha256 as sha2::Digest>::new();
    sha2::Digest::update(&mut hasher, data);
    sha2::Digest::finalize(hasher).to_vec()
}

impl Base64Error {
    /// The message the base64 crate displays for this error.
    pub fn message(&self) -> (r: String)
        ensures
            r@ == base64_error_message(*self),
    {
        let mut out = String::new();
        match *self {
            Base64Error::InvalidByte(index, byte) => {
                push_text(&mut out, "Invalid symbol ");
                push_decimal(&mut out, byte as u64);
                push_text(&mut out, ", offset ");
                push_decimal(&mut out, index as u64);
                push_text(&mut out, ".");
            },
            Base64Error::InvalidLength(len) => {
                push_text(&mut out, "Invalid input length: ");
                push_decimal(&mut out, len as u64);
            },
            Base64Error::InvalidLastSymbol(index, byte) => {
                push_text(&mut out, "Invalid last symbol ");
                push_decimal(&mut out, byte as u64);
                push_text(&mut out, ", offset ");
                push_decimal(&mut out, index as u64);
                push_text(&mut out, ".");
            },
            Base64Error::InvalidPadding => {
                push_text(&mut out, "Invalid padding");
            },
        }
        out
    }
}

/// The lowercase hex digit of `d`.
fn hex_digit_char(d: u8) -> (c: char)
    requires
        d < 16,
    ensures
        c == hex_digit(d as nat),
{
    if d < 10 {
        crate::text::digit(d as u64)
    } else {
        match d {
            10 => 'a',
            11 => 'b',
            12 => 'c',
            13 => 'd',
            14 => 'e',
            _ => 'f',
        }
    }
}

/// `bytes` as lowercase hex, two digits per byte (what `{:x}` prints for a
/// digest).
pub fn to_hex_lower(bytes: &[u8]) -> (r: String)
    ensures
        r@ == hex_lower(bytes@),
{
    let mut out = String::new();
    let n = bytes.len();
    for i in 0..n
        invariant
            n == bytes@.len(),
            out@ == hex_lower(bytes@.take(i as int)),
    {
        let b = bytes[i];
        push_char(&mut out, hex_digit_char(b / 16));
        push_char(&mut out, hex_digit_char(b % 16));
        assert(bytes@.take(i + 1).drop_last() == bytes@.take(i as int));
    }
    assert(bytes@.take(n as int) == bytes@);
    out
}

/// The SHA-256 digest of `data` as lowercase hex.
pub fn sha256_hex_string(data: &[u8]) -> (r: String)
    ensures
        r@ == sha256_hex(data@),
{
    let digest = sha256(data);
    to_hex_lower(digest.as_slice())
}

} // verus!
