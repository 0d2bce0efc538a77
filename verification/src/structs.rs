//! The values that a successful parse hands to the caller.
use crate::constants::FIX_MESSAGE_FIELD_DELIMITER;
use vstd::prelude::*;
use vstd::string::StringExecFns;

verus! {

/// What a field stands for: its tag and its value, as text.
pub struct FieldModel {
    pub tag: Seq<char>,
    pub value: Seq<char>,
}

/// What a message stands for: the protocol version and the fields in wire
/// order.
pub struct MessageModel {
    pub version: Seq<char>,
    pub fields: Seq<FieldModel>,
}

/// This structure represents a field/value pair of a FIX message.
#[derive(PartialEq, Debug)]
pub struct FIXMessageField {
    /// The tag number of the field.
    pub tag: String,
    /// The value associated with the tag.
    pub value: String,
}

impl View for FIXMessageField {
    type V = FieldModel;

    open spec fn view(&self) -> FieldModel {
        FieldModel { tag: self.tag@, value: self.value@ }
    }
}

impl FIXMessageField {
    /// The field as it stands in a message: the tag, `=`, the value.
    pub fn to_text(&self) -> (full: String)
        ensures
            full@ == self.tag@ + seq![FIX_MESSAGE_FIELD_DELIMITER] + self.value@,
    {
        proof {
            reveal_strlit("=");
        }
        let mut full: String = self.tag.clone();
        full.append("=");
        full.append(self.value.as_str());
        assert(full@ =~= self.tag@ + seq![FIX_MESSAGE_FIELD_DELIMITER] + self.value@);
        full
    }
}

/// The models of the fields of a list, in order.
pub open spec fn models_of(fields: Seq<FIXMessageField>) -> Seq<FieldModel> {
    fields.map_values(|f: FIXMessageField| f@)
}

/// This structure represents a whole FIX message: the protocol version and
/// the field/value pairs in the order in which they stood in the message.
#[derive(PartialEq, Debug)]
pub struct FIXMessage {
    /// FIX protocol version: the value of the first field.
    pub version: String,
    /// The field/value pairs, in message order.
    pub data: Vec<FIXMessageField>,
}

impl View for FIXMessage {
    type V = MessageModel;

    open spec fn view(&self) -> MessageModel {
        MessageModel { version: self.version@, fields: models_of(self.data@) }
    }
}

impl MessageModel {
    /// What holds of every message that a parse returns: there is a first
    /// field, its value is the version, and no tag or value is empty.
    pub open spec fn well_formed(self) -> bool {
        &&& self.fields.len() >= 1
        &&& self.version == self.fields[0].value
        &&& forall|i: int|
            0 <= i < self.fields.len() ==> #[trigger] self.fields[i].tag.len() > 0
                && self.fields[i].value.len() > 0
    }
}

} // verus!
