//! The checksum validator: the trailing checksum field is verified by the
//! `fix_checksum` crate, on the whole message text, before anything else
//! looks at the message.
use crate::wire::wire;
use fix_checksum::FIXChecksumValidatorError;
use std::num::ParseIntError;
use vstd::prelude::*;
use vstd::utf8::*;

verus! {

/// `std::num::ParseIntError`: the failure of parsing an integer, carried
/// through unopened.
#[verifier::external_type_specification]
#[verifier::external_body]
pub struct ExParseIntError(ParseIntError);

/// Why the checksum validator could not compare the checksum of a message.
#[derive(PartialEq, Debug)]
pub enum FIXChecksumError {
    /// The message is empty.
    InvalidEmptyMessage,
    /// Nowhere in the message does a delimiter stand before `10=`.
    ChecksumFieldNotFound,
    /// The checksum field does not hold a number; the failure is the one that
    /// parsing its three bytes as an integer gave.
    ChecksumFieldInvalidFormat(ParseIntError),
}

/// The longest prefix of a message whose bytes sum up to a number of 32 bits
/// whatever they are: `255 * 16_843_009 == u32::MAX`.
pub const MAX_SUMMED_BYTES: usize = 16_843_009;

/// Whether the checksum field opens at `at`: the delimiter that ends the
/// field before it, then `10=`.
pub open spec fn trailer_at(bytes: Seq<u8>, at: int) -> bool {
    &&& 0 <= at
    &&& at + 4 <= bytes.len()
    &&& bytes[at] == 0x01
    &&& bytes[at + 1] == 0x31
    &&& bytes[at + 2] == 0x30
    &&& bytes[at + 3] == 0x3D
}

/// The first index at or after `from` at which the checksum field opens.
pub open spec fn trailer_from(bytes: Seq<u8>, from: int) -> Option<int>
    decreases bytes.len() - from,
{
    if from < 0 || from + 4 > bytes.len() {
        None
    } else if trailer_at(bytes, from) {
        Some(from)
    } else {
        trailer_from(bytes, from + 1)
    }
}

/// Where the checksum field opens: the first occurrence of its four bytes.
pub open spec fn trailer_start(bytes: Seq<u8>) -> Option<int> {
    trailer_from(bytes, 0)
}

/// The sum of the bytes.
pub open spec fn byte_sum(bytes: Seq<u8>) -> nat
    decreases bytes.len(),
{
    if bytes.len() == 0 {
        0
    } else {
        byte_sum(bytes.drop_last()) + bytes.last() as nat
    }
}

/// Whether the byte is a decimal digit.
pub open spec fn is_digit(byte: u8) -> bool {
    0x30 <= byte <= 0x39
}

/// The number that the three bytes of a checksum value declare: three decimal
/// digits, or a `+` and two.
pub open spec fn declared_checksum(value: Seq<u8>) -> Option<nat> {
    if is_digit(value[0]) && is_digit(value[1]) && is_digit(value[2]) {
        Some(((value[0] - 0x30) * 100 + (value[1] - 0x30) * 10 + (value[2] - 0x30)) as nat)
    } else if value[0] == 0x2B && is_digit(value[1]) && is_digit(value[2]) {
        Some(((value[1] - 0x30) * 10 + (value[2] - 0x30)) as nat)
    } else {
        None
    }
}

/// The failure that the validator reports of a message whose checksum value
/// is malformed: the one that parsing the value as an integer gave.
pub uninterp spec fn format_failure(message: Seq<char>) -> ParseIntError;

/// The messages that the validator can judge: where the checksum field opens,
/// three bytes follow `10=` and end a character, and the sum of the bytes up
/// to the field is a number of 32 bits.
pub open spec fn is_judgeable(bytes: Seq<u8>) -> bool {
    match trailer_start(bytes) {
        None => true,
        Some(at) => {
            &&& byte_sum(bytes.take(at + 1)) <= u32::MAX
            &&& at + 7 <= bytes.len()
            &&& is_char_boundary(bytes, at + 7)
        },
    }
}

/// What the validator says of a message that it can judge, `failure` being
/// what it reports of a malformed checksum value.
pub open spec fn verdict_of(bytes: Seq<u8>, failure: ParseIntError) -> Result<
    bool,
    FIXChecksumError,
> {
    if bytes.len() == 0 {
        Err(FIXChecksumError::InvalidEmptyMessage)
    } else {
        match trailer_start(bytes) {
            None => Err(FIXChecksumError::ChecksumFieldNotFound),
            Some(at) => {
                let value = bytes.subrange(at + 4, at + 7);
                match declared_checksum(value) {
                    None => Err(FIXChecksumError::ChecksumFieldInvalidFormat(failure)),
                    Some(declared) => Ok(declared == byte_sum(bytes.take(at + 1)) % 256),
                }
            },
        }
    }
}

/// What the validator says of the message with the text `message`.
pub open spec fn checksum_verdict(message: Seq<char>) -> Result<bool, FIXChecksumError> {
    verdict_of(wire(message), format_failure(message))
}

/// `fix_checksum::validate`, with its error in this crate's type.
///
/// Trusted, not verified: on a message that `is_judgeable` admits, the call
/// returns and gives `checksum_verdict`. It reports an empty message; else it
/// looks for the first `\x01` followed by `10=` and reports when there is
/// none; else it sums up the bytes up to and including that `\x01` in a
/// `u32`, parses the three bytes after `10=` as a `u32` and reports a
/// failure; else it says whether that number is the sum modulo 256. On other
/// messages it panics: the sum overflows, or the three bytes are not there or
/// end inside a character.
#[verifier::external_body]
pub(crate) fn validate_checksum(message: &str) -> (verdict: Result<bool, FIXChecksumError>)
    requires
        is_judgeable(wire(message@)),
    ensures
        verdict == verdict_of(wire(message@), format_failure(message@)),
{
    match fix_checksum::validate(message) {
        Ok(matches) => Ok(matches),
        Err(FIXChecksumValidatorError::InvalidEmptyMessage) => Err(
            FIXChecksumError::InvalidEmptyMessage,
        ),
        Err(FIXChecksumValidatorError::ChecksumFieldNotFound) => Err(
            FIXChecksumError::ChecksumFieldNotFound,
        ),
        Err(FIXChecksumValidatorError::ChecksumFieldInvalidFormat(failure)) => Err(
            FIXChecksumError::ChecksumFieldInvalidFormat(failure),
        ),
    }
}

/// The outside crate's own words for a checksum error.
///
/// Trusted, not verified: nothing is claimed of the text. The body hands the
/// error, in the outside crate's type, to that crate's `Display`.
#[verifier::external_body]
pub(crate) fn checksum_error_text(error: &FIXChecksumError) -> (text: String) {
    match error {
        FIXChecksumError::InvalidEmptyMessage => {
            FIXChecksumValidatorError::InvalidEmptyMessage.to_string()
        },
        FIXChecksumError::ChecksumFieldNotFound => {
            FIXChecksumValidatorError::ChecksumFieldNotFound.to_string()
        },
        FIXChecksumError::ChecksumFieldInvalidFormat(failure) => {
            FIXChecksumValidatorError::ChecksumFieldInvalidFormat(failure.clone()).to_string()
        },
    }
}

/// Where the checksum field opens in `bytes`, if it does.
pub fn find_trailer(bytes: &[u8]) -> (found: Option<usize>)
    ensures
        match found {
            Some(at) => trailer_start(bytes@) == Some(at as int) && at + 4 <= bytes@.len(),
            None => trailer_start(bytes@) is None,
        },
{
    if bytes.len() < 4 {
        return None;
    }
    let last: usize = bytes.len() - 4;
    let mut i: usize = 0;
    while i <= last
        invariant
            last == bytes@.len() - 4,
            0 <= i <= last + 1,
            trailer_start(bytes@) == trailer_from(bytes@, i as int),
        decreases last + 1 - i,
    {
        if bytes[i] == 0x01 && bytes[i + 1] == 0x31 && bytes[i + 2] == 0x30
            && bytes[i + 3] == 0x3D {
            return Some(i);
        }
        i += 1;
    }
    None
}

/// Where the checksum field opens, its four opening bytes stand.
pub proof fn lemma_trailer_in_bounds(bytes: Seq<u8>, from: int)
    requires
        0 <= from,
    ensures
        trailer_from(bytes, from) matches Some(at) ==> from <= at && trailer_at(bytes, at),
    decreases bytes.len() - from,
{
    if from + 4 <= bytes.len() && !trailer_at(bytes, from) {
        lemma_trailer_in_bounds(bytes, from + 1);
    }
}

/// The sum of bytes is at most 255 times their number, and no smaller than
/// the sum of the first of them.
pub proof fn lemma_byte_sum_bounds(bytes: Seq<u8>, count: int)
    requires
        0 <= count <= bytes.len(),
    ensures
        byte_sum(bytes) <= 255 * bytes.len(),
        byte_sum(bytes.take(count)) <= byte_sum(bytes),
    decreases bytes.len(),
{
    if bytes.len() > 0 {
        let shorter = bytes.drop_last();
        if count < bytes.len() {
            lemma_byte_sum_bounds(shorter, count);
            assert(shorter.take(count) =~= bytes.take(count));
        } else {
            lemma_byte_sum_bounds(shorter, 0);
            assert(bytes.take(count) =~= bytes);
        }
    }
}

/// Whether the first `count` bytes sum up to a number of 32 bits.
pub fn sum_fits(bytes: &[u8], count: usize) -> (fits: bool)
    requires
        count <= bytes@.len(),
    ensures
        fits == (byte_sum(bytes@.take(count as int)) <= u32::MAX),
{
    if count <= MAX_SUMMED_BYTES {
        proof {
            lemma_byte_sum_bounds(bytes@.take(count as int), 0);
        }
        return true;
    }
    let mut sum: u64 = 0;
    let mut i: usize = 0;
    while i < count
        invariant
            0 <= i <= count <= bytes@.len(),
            sum == byte_sum(bytes@.take(i as int)),
            sum <= u32::MAX,
        decreases count - i,
    {
        proof {
            assert(bytes@.take(i + 1).drop_last() =~= bytes@.take(i as int));
        }
        sum = sum + bytes[i] as u64;
        if sum > 0xFFFF_FFFF {
            proof {
                lemma_byte_sum_bounds(bytes@.take(count as int), i + 1);
                assert(bytes@.take(count as int).take(i + 1) =~= bytes@.take(i + 1));
            }
            return false;
        }
        i += 1;
    }
    true
}

/// Whether the validator can judge the message.
pub fn can_judge(message: &str) -> (can: bool)
    ensures
        can == is_judgeable(wire(message@)),
{
    let bytes = message.as_bytes();
    match find_trailer(bytes) {
        None => true,
        Some(at) => {
            bytes.len() - at >= 7 && message.is_char_boundary(at + 7) && sum_fits(bytes, at + 1)
        },
    }
}

} // verus!
