//! The errors of a parse: one value for the first rule that a message breaks.
use crate::checksum::FIXChecksumError;
use crate::checksum::checksum_error_text;
use vstd::prelude::*;
use vstd::string::StringExecFns;

verus! {

/// What an error stands for: the rule that the message broke, with the
/// offending tag as text.
pub enum Fault {
    InvalidChecksum(FIXChecksumError),
    InvalidChecksumValue,
    InvalidFieldStructure,
    InvalidFirstField(Seq<char>),
    InvalidSecondField(Seq<char>),
    InvalidThirdField(Seq<char>),
    ExtraRequiredFieldFound,
    NotAllRequiredFieldsFound,
}

/// The first rule that a message broke.
#[derive(PartialEq, Debug)]
pub enum FIXMessageError {
    /// The checksum validator reported an error: the field is missing or
    /// malformed.
    InvalidChecksum(FIXChecksumError),
    /// The checksum validator compared the checksum, and it did not match.
    InvalidChecksumValue,
    /// A field lacks the delimiter, or its tag or its value is empty.
    InvalidFieldStructure,
    /// The tag of the first field, which is not `8`.
    InvalidFirstField(String),
    /// The tag of the second field, which is not `9`.
    InvalidSecondField(String),
    /// The tag of the third field, which is not `35`.
    InvalidThirdField(String),
    /// A required tag occurs a second time.
    ExtraRequiredFieldFound,
    /// The checksum field is reached while a required tag has not occurred.
    NotAllRequiredFieldsFound,
}

impl View for FIXMessageError {
    type V = Fault;

    open spec fn view(&self) -> Fault {
        match self {
            FIXMessageError::InvalidChecksum(error) => Fault::InvalidChecksum(*error),
            FIXMessageError::InvalidChecksumValue => Fault::InvalidChecksumValue,
            FIXMessageError::InvalidFieldStructure => Fault::InvalidFieldStructure,
            FIXMessageError::InvalidFirstField(tag) => Fault::InvalidFirstField(tag@),
            FIXMessageError::InvalidSecondField(tag) => Fault::InvalidSecondField(tag@),
            FIXMessageError::InvalidThirdField(tag) => Fault::InvalidThirdField(tag@),
            FIXMessageError::ExtraRequiredFieldFound => Fault::ExtraRequiredFieldFound,
            FIXMessageError::NotAllRequiredFieldsFound => Fault::NotAllRequiredFieldsFound,
        }
    }
}

/// The fixed words that describe a fault.
pub open spec fn description_of(fault: Fault) -> Seq<char> {
    match fault {
        Fault::InvalidChecksum(_) => "Invalid FIX message checksum"@,
        Fault::InvalidChecksumValue => "Invalid value of FIX message checksum"@,
        Fault::InvalidFieldStructure => {
            "Invalid structure of FIX message field, should be <tag>=<value>"@
        },
        Fault::InvalidFirstField(_) => "Invalid first field, should be `8` but found"@,
        Fault::InvalidSecondField(_) => "Invalid first field, should be `9` but found"@,
        Fault::InvalidThirdField(_) => "Invalid first field, should be `35` but found"@,
        Fault::ExtraRequiredFieldFound => "Extra required field found"@,
        Fault::NotAllRequiredFieldsFound => "Not all required fields found"@,
    }
}

/// What follows the description in the full text of a fault, given the
/// checksum validator's own words for its error: a colon and the detail,
/// where the fault carries one.
pub open spec fn detail_of(fault: Fault, validator_words: Seq<char>) -> Seq<char> {
    match fault {
        Fault::InvalidChecksum(_) => ": "@ + validator_words,
        Fault::InvalidFirstField(tag) => ": "@ + tag,
        Fault::InvalidSecondField(tag) => ": "@ + tag,
        Fault::InvalidThirdField(tag) => ": "@ + tag,
        _ => Seq::empty(),
    }
}

impl FIXMessageError {
    /// The fixed words that describe the error.
    pub fn description(&self) -> (words: &'static str)
        ensures
            words@ == description_of(self@),
    {
        match self {
            FIXMessageError::InvalidChecksum(_) => "Invalid FIX message checksum",
            FIXMessageError::InvalidChecksumValue => "Invalid value of FIX message checksum",
            FIXMessageError::InvalidFieldStructure => {
                "Invalid structure of FIX message field, should be <tag>=<value>"
            },
            FIXMessageError::InvalidFirstField(_) => "Invalid first field, should be `8` but found",
            FIXMessageError::InvalidSecondField(_) => {
                "Invalid first field, should be `9` but found"
            },
            FIXMessageError::InvalidThirdField(_) => {
                "Invalid first field, should be `35` but found"
            },
            FIXMessageError::ExtraRequiredFieldFound => "Extra required field found",
            FIXMessageError::NotAllRequiredFieldsFound => "Not all required fields found",
        }
    }

    /// The full text of the error: the description, then the offending tag or
    /// the checksum validator's own words, where the error carries either.
    pub fn to_text(&self) -> (full: String)
        ensures
            exists|validator_words: Seq<char>|
                full@ == description_of(self@) + #[trigger] detail_of(self@, validator_words),
            !(self@ is InvalidChecksum) ==> full@ == description_of(self@) + detail_of(
                self@,
                Seq::empty(),
            ),
    {
        let mut full: String = self.description().to_owned();
        match self {
            FIXMessageError::InvalidChecksum(error) => {
                let validator_words: String = checksum_error_text(error);
                full.append(": ");
                full.append(validator_words.as_str());
                assert(full@ == description_of(self@) + detail_of(self@, validator_words@));
            },
            FIXMessageError::InvalidFirstField(tag) => {
                full.append(": ");
                full.append(tag.as_str());
                assert(full@ == description_of(self@) + detail_of(self@, Seq::empty()));
            },
            FIXMessageError::InvalidSecondField(tag) => {
                full.append(": ");
                full.append(tag.as_str());
                assert(full@ == description_of(self@) + detail_of(self@, Seq::empty()));
            },
            FIXMessageError::InvalidThirdField(tag) => {
                full.append(": ");
                full.append(tag.as_str());
                assert(full@ == description_of(self@) + detail_of(self@, Seq::empty()));
            },
            _ => {
                assert(full@ == description_of(self@) + detail_of(self@, Seq::empty()));
            },
        }
        full
    }
}

} // verus!
