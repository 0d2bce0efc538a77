//! Decoder and validator for FIX-style messages: `tag=value` fields with the
//! byte `0x01` between them.
//!
//! The crate is agnostic to the protocol version. It checks what every
//! version shares: the shape of each field, the three fields that open a
//! message, the header fields that must occur exactly once, and the trailing
//! checksum, which the `fix_checksum` crate verifies.
//!
//! Every function is stated against a model of the wire: the UTF-8 bytes of
//! the message text.
pub mod checksum;
pub mod constants;
pub mod errors;
pub mod fix_message_fields;
pub mod laws;
pub mod parser;
pub mod rules;
pub mod structs;
pub mod wire;

pub use crate::checksum::FIXChecksumError;
pub use crate::constants::FIX_MESSAGE_DELIMITER;
pub use crate::constants::FIX_MESSAGE_FIELD_DELIMITER;
pub use crate::errors::FIXMessageError;
pub use crate::errors::FIXMessageError::ExtraRequiredFieldFound;
pub use crate::errors::FIXMessageError::InvalidChecksum;
pub use crate::errors::FIXMessageError::InvalidChecksumValue;
pub use crate::errors::FIXMessageError::InvalidFieldStructure;
pub use crate::errors::FIXMessageError::InvalidFirstField;
pub use crate::errors::FIXMessageError::InvalidSecondField;
pub use crate::errors::FIXMessageError::InvalidThirdField;
pub use crate::errors::FIXMessageError::NotAllRequiredFieldsFound;
pub use crate::parser::parse;
pub use crate::parser::parse_judged;
pub use crate::parser::try_parse;
pub use crate::structs::FIXMessage;
pub use crate::structs::FIXMessageField;

use vstd::prelude::*;

verus! {

/// What the functions of this crate return: a value, or the first rule that
/// the message broke.
pub type FIXMessageResult<T> = Result<T, FIXMessageError>;

} // verus!
