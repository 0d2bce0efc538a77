//! The rules that the fields of a message obey, stated over the wire bytes of
//! the fields: the shape of a field, the three fields that open a message,
//! and the required fields.
use crate::checksum::FIXChecksumError;
use crate::checksum::checksum_verdict;
use crate::constants::FIELD_DELIMITER_BYTE;
use crate::constants::MESSAGE_DELIMITER_BYTE;
use crate::errors::Fault;
use crate::fix_message_fields::BEGIN_STRING;
use crate::fix_message_fields::BODY_LENGTH;
use crate::fix_message_fields::CHECK_SUM;
use crate::fix_message_fields::MSG_SEQ_NUM;
use crate::fix_message_fields::MSG_TYPE;
use crate::fix_message_fields::SENDER_COMP_ID;
use crate::fix_message_fields::SENDING_TIME;
use crate::fix_message_fields::TARGET_COMP_ID;
use crate::structs::FieldModel;
use crate::structs::MessageModel;
use crate::wire::lemma_wire_injective;
use crate::wire::span_before;
use crate::wire::split_on;
use crate::wire::text;
use crate::wire::wire;
use vstd::prelude::*;

verus! {

/// The tag of a field: what stands before its first `=`.
pub open spec fn tag_of(field: Seq<u8>) -> Seq<u8> {
    field.take(span_before(field, FIELD_DELIMITER_BYTE) as int)
}

/// The value of a field: what stands after its first `=`.
pub open spec fn value_of(field: Seq<u8>) -> Seq<u8> {
    field.skip((span_before(field, FIELD_DELIMITER_BYTE) + 1) as int)
}

/// A field has its shape when it holds a `=` with at least one byte before
/// the first one and at least one byte after it.
pub open spec fn well_shaped(field: Seq<u8>) -> bool {
    0 < span_before(field, FIELD_DELIMITER_BYTE) && span_before(field, FIELD_DELIMITER_BYTE) + 1
        < field.len()
}

/// What a well-shaped field stands for.
pub open spec fn field_of(field: Seq<u8>) -> FieldModel {
    FieldModel { tag: text(tag_of(field)), value: text(value_of(field)) }
}

/// The seven tags that a message must hold exactly once.
pub open spec fn required_tags() -> Seq<Seq<u8>> {
    seq![
        wire(BEGIN_STRING@),
        wire(BODY_LENGTH@),
        wire(MSG_TYPE@),
        wire(SENDER_COMP_ID@),
        wire(TARGET_COMP_ID@),
        wire(MSG_SEQ_NUM@),
        wire(SENDING_TIME@),
    ]
}

/// Whether the tag is one of the seven.
pub open spec fn is_required_tag(tag: Seq<u8>) -> bool {
    required_tags().contains(tag)
}

/// Whether the tag is that of the checksum field.
pub open spec fn is_checksum_tag(tag: Seq<u8>) -> bool {
    tag == wire(CHECK_SUM@)
}

/// The rule on the three fields that open a message, held against the tag of
/// the field at `index`: the fault, if the tag breaks the rule.
pub open spec fn header_fault(index: int, tag: Seq<u8>) -> Option<Fault> {
    if index == 0 && tag != wire(BEGIN_STRING@) {
        Some(Fault::InvalidFirstField(text(tag)))
    } else if index == 1 && tag != wire(BODY_LENGTH@) {
        Some(Fault::InvalidSecondField(text(tag)))
    } else if index == 2 && tag != wire(MSG_TYPE@) {
        Some(Fault::InvalidThirdField(text(tag)))
    } else {
        None
    }
}

/// Whether a field before the one at `index` has the tag.
pub open spec fn occurs_before(fields: Seq<Seq<u8>>, index: int, tag: Seq<u8>) -> bool {
    exists|j: int| 0 <= j < index && j < fields.len() && #[trigger] tag_of(fields[j]) == tag
}

/// Whether some required tag has not occurred before the field at `index`.
pub open spec fn required_pending(fields: Seq<Seq<u8>>, index: int) -> bool {
    exists|tag: Seq<u8>| is_required_tag(tag) && !#[trigger] occurs_before(fields, index, tag)
}

/// The working set of a parse that has seen the fields before `index`: the
/// required tags that have not occurred yet, each once.
pub open spec fn is_working_set(pending: Seq<Seq<u8>>, fields: Seq<Seq<u8>>, index: int) -> bool {
    &&& pending.no_duplicates()
    &&& forall|tag: Seq<u8>| #![trigger pending.contains(tag)]
        pending.contains(tag) <==> is_required_tag(tag) && !occurs_before(fields, index, tag)
}

/// The rule that the field at `index` breaks, given the fields before it: its
/// shape first, then its place among the first three, then the required tags,
/// each of which may occur once and must have occurred when the checksum
/// field is reached.
pub open spec fn fault_at(fields: Seq<Seq<u8>>, index: int) -> Option<Fault> {
    let tag = tag_of(fields[index]);
    if !well_shaped(fields[index]) {
        Some(Fault::InvalidFieldStructure)
    } else if header_fault(index, tag) is Some {
        header_fault(index, tag)
    } else if is_required_tag(tag) && occurs_before(fields, index, tag) {
        Some(Fault::ExtraRequiredFieldFound)
    } else if is_checksum_tag(tag) && required_pending(fields, index) {
        Some(Fault::NotAllRequiredFieldsFound)
    } else {
        None
    }
}

/// Whether none of the first `count` fields breaks a rule.
pub open spec fn faultless(fields: Seq<Seq<u8>>, count: int) -> bool {
    forall|j: int| 0 <= j < count && j < fields.len() ==> #[trigger] fault_at(fields, j) is None
}

/// The fault of the first field, at or after `from`, that breaks a rule.
pub open spec fn first_fault_from(fields: Seq<Seq<u8>>, from: int) -> Option<Fault>
    decreases fields.len() - from,
{
    if from < 0 || from >= fields.len() {
        None
    } else if fault_at(fields, from) is Some {
        fault_at(fields, from)
    } else {
        first_fault_from(fields, from + 1)
    }
}

/// What the fields stand for, in order.
pub open spec fn models(fields: Seq<Seq<u8>>) -> Seq<FieldModel> {
    fields.map_values(|field: Seq<u8>| field_of(field))
}

/// The outcome of a validation that `fault` ends.
pub open spec fn rejected(fault: Fault) -> Result<Seq<FieldModel>, Fault> {
    Err(fault)
}

/// What validating the fields of a message gives: the fault of the first
/// field that breaks a rule, or else every field, in order.
pub open spec fn validated(fields: Seq<Seq<u8>>) -> Result<Seq<FieldModel>, Fault> {
    match first_fault_from(fields, 0) {
        Some(fault) => rejected(fault),
        None => Ok(models(fields)),
    }
}

/// The fields of the message with the text `message`, as they stand on the
/// wire.
pub open spec fn fields_of(message: Seq<char>) -> Seq<Seq<u8>> {
    split_on(wire(message), MESSAGE_DELIMITER_BYTE)
}

/// The outcome of a parse that `fault` ends.
pub open spec fn failed(fault: Fault) -> Result<MessageModel, Fault> {
    Err(fault)
}

/// What parsing a message gives, `verdict` being what the checksum validator
/// says of it: the validator's error or its refusal, or else what validating
/// the fields gives, with the first field's value as the version.
pub open spec fn parsed(bytes: Seq<u8>, verdict: Result<bool, FIXChecksumError>) -> Result<
    MessageModel,
    Fault,
> {
    match verdict {
        Err(error) => failed(Fault::InvalidChecksum(error)),
        Ok(false) => failed(Fault::InvalidChecksumValue),
        Ok(true) => match validated(split_on(bytes, MESSAGE_DELIMITER_BYTE)) {
            Err(fault) => failed(fault),
            Ok(fields) => Ok(MessageModel { version: fields[0].value, fields }),
        },
    }
}

/// What parsing the message with the text `message` gives.
pub open spec fn parse_of(message: Seq<char>) -> Result<MessageModel, Fault> {
    parsed(wire(message), checksum_verdict(message))
}

/// The first fault is that of the field at `index` when no field before it
/// breaks a rule and it does.
pub proof fn lemma_first_fault(fields: Seq<Seq<u8>>, index: int)
    requires
        0 <= index < fields.len(),
        faultless(fields, index),
        fault_at(fields, index) is Some,
    ensures
        first_fault_from(fields, 0) == fault_at(fields, index),
{
    lemma_first_fault_from(fields, 0, index);
}

proof fn lemma_first_fault_from(fields: Seq<Seq<u8>>, from: int, index: int)
    requires
        0 <= from <= index < fields.len(),
        faultless(fields, index),
        fault_at(fields, index) is Some,
    ensures
        first_fault_from(fields, from) == fault_at(fields, index),
    decreases index - from,
{
    if from < index {
        lemma_first_fault_from(fields, from + 1, index);
    }
}

/// There is no first fault when no field breaks a rule.
pub proof fn lemma_no_fault(fields: Seq<Seq<u8>>)
    requires
        faultless(fields, fields.len() as int),
    ensures
        first_fault_from(fields, 0) is None,
{
    lemma_no_fault_from(fields, 0);
}

proof fn lemma_no_fault_from(fields: Seq<Seq<u8>>, from: int)
    requires
        0 <= from <= fields.len(),
        faultless(fields, fields.len() as int),
    ensures
        first_fault_from(fields, from) is None,
    decreases fields.len() - from,
{
    if from < fields.len() {
        lemma_no_fault_from(fields, from + 1);
    }
}

/// The seven required tags differ from each other, and none of them is the
/// checksum tag.
pub proof fn lemma_tags_differ()
    ensures
        required_tags().no_duplicates(),
        !is_required_tag(wire(CHECK_SUM@)),
{
    reveal_strlit("8");
    reveal_strlit("9");
    reveal_strlit("35");
    reveal_strlit("49");
    reveal_strlit("56");
    reveal_strlit("34");
    reveal_strlit("52");
    reveal_strlit("10");
    let names = seq![
        BEGIN_STRING@,
        BODY_LENGTH@,
        MSG_TYPE@,
        SENDER_COMP_ID@,
        TARGET_COMP_ID@,
        MSG_SEQ_NUM@,
        SENDING_TIME@,
        CHECK_SUM@,
    ];
    assert forall|i: int, j: int| 0 <= i < 8 && 0 <= j < 8 && i != j implies wire(names[i])
        != wire(names[j]) by {
        assert(names[i].len() != names[j].len() || names[i][0] != names[j][0] || names[i][1]
            != names[j][1]);
        if wire(names[i]) == wire(names[j]) {
            lemma_wire_injective(names[i], names[j]);
        }
    }
}

/// A tag has occurred before the field after `index` when it had occurred
/// before the field at `index`, or is the tag of that field.
pub proof fn lemma_occurs_next(fields: Seq<Seq<u8>>, index: int)
    requires
        0 <= index < fields.len(),
    ensures
        forall|tag: Seq<u8>| #[trigger]
            occurs_before(fields, index + 1, tag) <==> occurs_before(fields, index, tag) || tag
                == tag_of(fields[index]),
{
    assert forall|tag: Seq<u8>| #[trigger]
        occurs_before(fields, index + 1, tag) <==> occurs_before(fields, index, tag) || tag
            == tag_of(fields[index]) by {
        if occurs_before(fields, index + 1, tag) {
            let j = choose|j: int|
                0 <= j < index + 1 && j < fields.len() && #[trigger] tag_of(fields[j]) == tag;
            assert(j < index || tag == tag_of(fields[index]));
        }
    }
}

} // verus!
