//! The two delimiters of a message, as characters and as bytes.
use vstd::prelude::*;

verus! {

/// Standard FIX message delimiter (code `0x01`): it stands between the
/// fields of a message.
pub const FIX_MESSAGE_DELIMITER: char = '\x01';

/// Standard FIX message field tag-value delimiter (code `0x3D`, `=`).
pub const FIX_MESSAGE_FIELD_DELIMITER: char = '\x3D';

/// The message delimiter as it stands on the wire.
pub const MESSAGE_DELIMITER_BYTE: u8 = 0x01;

/// The tag-value delimiter as it stands on the wire.
pub const FIELD_DELIMITER_BYTE: u8 = 0x3D;

} // verus!
