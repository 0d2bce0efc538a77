//! The checksum validator and the test that guards the call.
use fix_message::checksum::can_judge;
use fix_message::checksum::find_trailer;
use fix_message::checksum::sum_fits;
use fix_message::checksum::MAX_SUMMED_BYTES;
use fix_message::try_parse;
use fix_message::FIXChecksumError;
use fix_message::FIXChecksumError::ChecksumFieldInvalidFormat;
use fix_message::FIXChecksumError::ChecksumFieldNotFound;
use fix_message::FIXChecksumError::InvalidEmptyMessage;
use fix_message::InvalidChecksum;
use fix_message::InvalidChecksumValue;
use fix_message::InvalidFieldStructure;

/// What the validator said of a message, as far as a parse shows it.
fn verdict(message: &str) -> Result<bool, FIXChecksumError> {
    match try_parse(message).unwrap() {
        Err(InvalidChecksum(error)) => Err(error),
        Err(InvalidChecksumValue) => Ok(false),
        _ => Ok(true),
    }
}

const BODY: &str = "8=FIX.4.2\x019=73\x0135=0\x0149=BRKR\x0156=INVMGR\x0134=235\x0152=19980604-07:58:28\x01112=19980604-07:58:28";

#[test]
fn find_trailer_gives_the_first_opening() {
    assert_eq!(find_trailer(b"8=F\x0110=123"), Some(3));
    assert_eq!(find_trailer(b"\x0110=1\x0110=2"), Some(0));
    assert_eq!(find_trailer(b"8=F\x0110=123\x0110=456"), Some(3));
}

#[test]
fn find_trailer_needs_the_delimiter_before_the_tag() {
    assert_eq!(find_trailer(b"10=123"), None);
    assert_eq!(find_trailer(b"8=F\x01110=123"), None);
    assert_eq!(find_trailer(b"8=F\x0110"), None);
    assert_eq!(find_trailer(b""), None);
    assert_eq!(find_trailer(b"\x0110"), None);
}

#[test]
fn find_trailer_finds_an_opening_at_the_very_end() {
    assert_eq!(find_trailer(b"8=F\x0110="), Some(3));
}

#[test]
fn a_sum_fits_up_to_the_largest_number_of_32_bits() {
    assert!(sum_fits(b"", 0));
    assert!(sum_fits(b"8=FIX.4.2", 9));
    let bytes = vec![0xFFu8; MAX_SUMMED_BYTES + 1];
    assert!(sum_fits(&bytes, 0));
    assert!(sum_fits(&bytes, MAX_SUMMED_BYTES));
    assert!(!sum_fits(&bytes, MAX_SUMMED_BYTES + 1));
    let mut bytes = vec![0xFFu8; MAX_SUMMED_BYTES];
    bytes.push(0);
    assert!(sum_fits(&bytes, MAX_SUMMED_BYTES + 1));
    bytes.push(1);
    assert!(!sum_fits(&bytes, MAX_SUMMED_BYTES + 2));
}

#[test]
fn messages_without_a_checksum_field_can_be_judged() {
    assert!(can_judge(""));
    assert!(can_judge(BODY));
    assert!(can_judge("10=236"));
}

#[test]
fn a_checksum_value_of_three_bytes_can_be_judged() {
    assert!(can_judge("8=F\x0110=236"));
    assert!(can_judge("8=F\x0110=2ZZ"));
    assert!(can_judge("8=F\x0110=236\x01"));
    assert!(can_judge("8=F\x0110=2366"));
    assert!(can_judge("8=F\x0110=1\u{e9}"));
    assert!(can_judge("8=F\x0110=\u{20ac}"));
}

#[test]
fn a_shorter_checksum_value_cannot_be_judged() {
    assert!(!can_judge("8=F\x0110="));
    assert!(!can_judge("8=F\x0110=2"));
    assert!(!can_judge("8=F\x0110=23"));
    assert!(!can_judge("8=F\x0110=\u{e9}"));
}

#[test]
fn a_checksum_value_that_ends_inside_a_character_cannot_be_judged() {
    assert!(!can_judge("8=F\x0110=12\u{e9}"));
    assert!(!can_judge("8=F\x0110=\u{e9}\u{e9}"));
    assert!(!can_judge("8=F\x0110=\u{1f600}"));
}

#[test]
fn only_the_first_checksum_field_counts() {
    assert!(can_judge("8=F\x0110=123\x0110="));
    assert!(can_judge("8=F\x0110=1\x0110=123"));
    assert_eq!(
        verdict("8=F\x0110=1\x0110=123"),
        Err(ChecksumFieldInvalidFormat("1\x011".parse::<u32>().unwrap_err()))
    );
}

#[test]
fn a_message_of_any_bytes_can_be_judged_up_to_the_safe_length() {
    let mut message = "x".repeat(MAX_SUMMED_BYTES - 1);
    message.push_str("\x0110=000");
    assert!(can_judge(&message));
    let sum: u64 = message.as_bytes()[..MAX_SUMMED_BYTES].iter().map(|b| *b as u64).sum();
    assert_eq!(verdict(&message), Ok(sum % 256 == 0));
}

#[test]
fn a_longer_message_can_be_judged_while_its_sum_fits() {
    let mut message = "x".repeat(MAX_SUMMED_BYTES + 1);
    message.push_str("\x0110=000");
    assert!(can_judge(&message));
    let sum: u64 = message.bytes().take(MAX_SUMMED_BYTES + 2).map(|b| b as u64).sum();
    assert_eq!(verdict(&message), Ok(sum % 256 == 0));
}

#[test]
fn the_largest_sum_that_fits_can_be_judged() {
    // 127 * 33_818_640 + 14 + 1 == u32::MAX, which is 255 modulo 256.
    let mut message = "\x7f".repeat(33_818_640);
    message.push_str("\x0e\x0110=255");
    assert!(can_judge(&message));
    assert_eq!(try_parse(&message), Some(Err(InvalidFieldStructure)));
    message.pop();
    message.push('4');
    assert_eq!(try_parse(&message), Some(Err(InvalidChecksumValue)));
}

#[test]
fn a_sum_that_does_not_fit_cannot_be_judged() {
    // 127 * 33_818_640 + 15 + 1 == u32::MAX + 1.
    let mut message = "\x7f".repeat(33_818_640);
    message.push_str("\x0f\x0110=000");
    assert!(!can_judge(&message));
    assert_eq!(try_parse(&message), None);
    let mut message = "\u{ffff}".repeat(7_000_000);
    message.push_str("\x0110=000");
    assert!(!can_judge(&message));
}

#[test]
fn the_validator_reports_an_empty_message() {
    assert!(can_judge(""));
    assert_eq!(verdict(""), Err(InvalidEmptyMessage));
    assert_eq!(try_parse(""), Some(Err(InvalidChecksum(InvalidEmptyMessage))));
}

#[test]
fn the_validator_reports_a_missing_checksum_field() {
    assert_eq!(verdict(BODY), Err(ChecksumFieldNotFound));
    assert_eq!(verdict("10=236"), Err(ChecksumFieldNotFound));
    assert_eq!(verdict("\x01"), Err(ChecksumFieldNotFound));
}

#[test]
fn the_validator_reports_a_checksum_value_that_is_no_number() {
    for value in ["2ZZ", "ZZ2", "2 6", " 36", "-36", "++6", "+-6", "23\x01", "\u{20ac}", "1\u{e9}"] {
        let message = format!("{}\x0110={}", BODY, value);
        assert!(can_judge(&message));
        assert_eq!(
            verdict(&message),
            Err(ChecksumFieldInvalidFormat(value.parse::<u32>().unwrap_err()))
        );
    }
}

#[test]
fn the_validator_compares_the_checksum_modulo_256() {
    assert_eq!(verdict(&format!("{}\x0110=236", BODY)), Ok(true));
    assert_eq!(verdict(&format!("{}\x0110=231", BODY)), Ok(false));
    assert_eq!(verdict(&format!("{}\x0110=492", BODY)), Ok(false));
    assert_eq!(verdict(&format!("{}\x0110=236\x01", BODY)), Ok(true));
}

#[test]
fn the_validator_reads_three_bytes_of_the_checksum_value() {
    assert_eq!(verdict(&format!("{}\x0110=2369", BODY)), Ok(true));
    assert_eq!(verdict(&format!("{}\x0110=236ZZ", BODY)), Ok(true));
}

#[test]
fn the_validator_takes_a_sign_and_leading_zeros() {
    // The bytes before the checksum field sum up to 1 modulo 256.
    let body = "\u{0}\u{0}";
    assert_eq!(verdict(&format!("{}\x0110=001", body)), Ok(true));
    assert_eq!(verdict(&format!("{}\x0110=+01", body)), Ok(true));
    assert_eq!(verdict(&format!("{}\x0110=+10", body)), Ok(false));
    assert_eq!(verdict(&format!("{}\x0110=257", body)), Ok(false));
}

#[test]
fn the_validator_sums_the_bytes_of_every_character() {
    // 0xC3 + 0xA9 + 0x01 = 365 = 109 modulo 256.
    assert_eq!(verdict("\u{e9}\x0110=109"), Ok(true));
    assert_eq!(verdict("\u{e9}\x0110=365"), Ok(false));
}

#[test]
fn try_parse_gives_nothing_where_the_validator_cannot_judge() {
    assert_eq!(try_parse("8=FIX.4.2\x0110=2"), None);
    assert_eq!(try_parse("8=FIX.4.2\x0110=12\u{e9}"), None);
}

#[test]
fn try_parse_gives_what_the_validator_says() {
    assert_eq!(try_parse(BODY), Some(Err(InvalidChecksum(ChecksumFieldNotFound))));
    assert_eq!(try_parse(&format!("{}\x0110=231", BODY)), Some(Err(InvalidChecksumValue)));
    assert_eq!(
        try_parse(&format!("{}\x0110=1\u{e9}", BODY)),
        Some(Err(InvalidChecksum(ChecksumFieldInvalidFormat(
            "1\u{e9}".parse::<u32>().unwrap_err()
        ))))
    );
}
