use vstd::prelude::*;

verus! {

/// Why base64 text could not be decoded.
#[derive(Debug, Clone, Copy, PartialEq, Eq)]
pub enum DecodeFailure {
    /// A byte that is not of the alphabet, at that offset.
    InvalidByte(usize, u8),
    /// The text cannot end where it does.
    InvalidLength,
    /// The last symbol has bits set that would be lost, at that offset.
    InvalidLastSymbol(usize, u8),
}

/// The character of the standard base64 alphabet for `n`, from 0 to 63:
/// the capital letters, the small letters, the digits, `+` and `/`.
pub open spec fn base64_digit(n: int) -> char {
    if n < 26 {
        (65 + n) as char
    } else if n < 52 {
        (97 + (n - 26)) as char
    } else if n < 62 {
        (48 + (n - 52)) as char
    } else if n == 62 {
        '+'
    } else {
        '/'
    }
}

/// Standard base64 with padding: each three bytes give four characters of
/// six bits each, high bits first; a last one or two bytes give two or
/// three characters, filled up with `=` to four.
pub open spec fn base64_text(s: Seq<u8>) -> Seq<char>
    decreases s.len(),
{
    if s.len() == 0 {
        Seq::empty()
    } else if s.len() == 1 {
        seq![base64_digit((s[0] / 4) as int), base64_digit((s[0] % 4) * 16), '=', '=']
    } else if s.len() == 2 {
        seq![
            base64_digit((s[0] / 4) as int),
            base64_digit((s[0] % 4) * 16 + s[1] / 16),
            base64_digit((s[1] % 16) * 4),
            '='
        ]
    } else {
        seq![
            base64_digit((s[0] / 4) as int),
            base64_digit((s[0] % 4) * 16 + s[1] / 16),
            base64_digit((s[1] % 16) * 4 + s[2] / 64),
            base64_digit((s[2] % 64) as int)
        ] + base64_text(s.skip(3))
    }
}

/// What `base64::decode` makes of `text`.
pub uninterp spec fn base64_decoded(text: Seq<u8>) -> Result<Seq<u8>, DecodeFailure>;

/// Whether `c` may stand in standard base64 text: a letter, a digit, `+`,
/// `/`, or the padding `=`.
pub open spec fn base64_char(c: char) -> bool {
    ('A' <= c <= 'Z') || ('a' <= c <= 'z') || ('0' <= c <= '9') || c == '+' || c == '/' || c == '='
}

/// Calls `base64::encode`, which writes standard base64 with padding, as
/// `base64_text` says. It panics when the length of the text overflows,
/// which the precondition leaves out.
#[verifier::external_body]
fn encode_bytes(bytes: &[u8]) -> (r: String)
    requires
        4 * ((bytes@.len() + 2) / 3) <= usize::MAX,
    ensures
        r@ == base64_text(bytes@),
{
    base64::encode(bytes)
}

/// Calls `base64::decode`, the standard alphabet with padding, and turns its
/// error into `DecodeFailure`, variant for variant. Its result is named
/// `base64_decoded`; nothing more is stated of it. It panics when the length
/// of the text plus 3 overflows, which the precondition leaves out.
#[verifier::external_body]
fn decode_bytes(text: &[u8]) -> (r: Result<Vec<u8>, DecodeFailure>)
    requires
        text@.len() + 3 <= usize::MAX,
    ensures
        match r {
            Ok(v) => base64_decoded(text@) == Ok::<Seq<u8>, DecodeFailure>(v@),
            Err(e) => base64_decoded(text@) == Err::<Seq<u8>, DecodeFailure>(e),
        },
{
    match base64::decode(text) {
        Ok(v) => Ok(v),
        Err(base64::DecodeError::InvalidByte(at, b)) => Err(DecodeFailure::InvalidByte(at, b)),
        Err(base64::DecodeError::InvalidLength) => Err(DecodeFailure::InvalidLength),
        Err(base64::DecodeError::InvalidLastSymbol(at, b)) => Err(DecodeFailure::InvalidLastSymbol(at, b)),
    }
}

/// Base64 text has four characters for each three bytes or part of three,
/// all of the alphabet or padding.
pub proof fn law_base64_text_shape(s: Seq<u8>)
    ensures
        base64_text(s).len() == 4 * ((s.len() + 2) / 3),
        forall|i: int| 0 <= i < base64_text(s).len() ==> base64_char(#[trigger] base64_text(s)[i]),
    decreases s.len(),
{
    assert forall|n: int| 0 <= n < 64 implies #[trigger] base64_char(base64_digit(n)) by {
        if n < 26 {
            assert((65 + n) as char as int == 65 + n);
        } else if n < 52 {
            assert((97 + (n - 26)) as char as int == 97 + (n - 26));
        } else if n < 62 {
            assert((48 + (n - 52)) as char as int == 48 + (n - 52));
        }
    }
    if s.len() >= 3 {
        law_base64_text_shape(s.skip(3));
        let head = seq![
            base64_digit((s[0] / 4) as int),
            base64_digit((s[0] % 4) * 16 + s[1] / 16),
            base64_digit((s[1] % 16) * 4 + s[2] / 64),
            base64_digit((s[2] % 64) as int)
        ];
        assert(base64_text(s) == head + base64_text(s.skip(3)));
        assert forall|i: int| 0 <= i < base64_text(s).len() implies base64_char(#[trigger] base64_text(s)[i]) by {
            if i >= 4 {
                assert(base64_text(s)[i] == base64_text(s.skip(3))[i - 4]);
            } else {
                assert(base64_text(s)[i] == head[i]);
            }
        }
    }
}

/// The base64 text of `bytes`, as the editor gets it: standard base64 with
/// padding.
pub fn base64_encode(bytes: &[u8]) -> (r: String)
    requires
        4 * ((bytes@.len() + 2) / 3) <= usize::MAX,
    ensures
        r@ == base64_text(bytes@),
        r@.len() == 4 * ((bytes@.len() + 2) / 3),
        forall|i: int| 0 <= i < r@.len() ==> base64_char(#[trigger] r@[i]),
{
    proof {
        law_base64_text_shape(bytes@);
    }
    encode_bytes(bytes)
}

/// The bytes that the base64 text `text` stands for.
pub fn base64_decode(text: &[u8]) -> (r: Result<Vec<u8>, DecodeFailure>)
    requires
        text@.len() + 3 <= usize::MAX,
    ensures
        match r {
            Ok(v) => base64_decoded(text@) == Ok::<Seq<u8>, DecodeFailure>(v@),
            Err(e) => base64_decoded(text@) == Err::<Seq<u8>, DecodeFailure>(e),
        },
{
    decode_bytes(text)
}

} // verus!
