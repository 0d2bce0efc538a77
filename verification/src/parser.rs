//! The parser: the checksum validator first, then one pass over the fields,
//! left to right, that stops at the first field that breaks a rule.
use crate::FIXMessageResult;
use crate::checksum::FIXChecksumError;
use crate::checksum::can_judge;
use crate::checksum::is_judgeable;
use crate::checksum::validate_checksum;
use crate::constants::FIELD_DELIMITER_BYTE;
use crate::errors::FIXMessageError;
use crate::errors::Fault;
use crate::fix_message_fields::BEGIN_STRING;
use crate::fix_message_fields::BODY_LENGTH;
use crate::fix_message_fields::CHECK_SUM;
use crate::fix_message_fields::MSG_SEQ_NUM;
use crate::fix_message_fields::MSG_TYPE;
use crate::fix_message_fields::SENDER_COMP_ID;
use crate::fix_message_fields::SENDING_TIME;
use crate::fix_message_fields::TARGET_COMP_ID;
use crate::rules::fault_at;
use crate::rules::faultless;
use crate::rules::field_of;
use crate::rules::header_fault;
use crate::rules::is_required_tag;
use crate::rules::is_working_set;
use crate::rules::lemma_first_fault;
use crate::rules::lemma_no_fault;
use crate::rules::lemma_occurs_next;
use crate::rules::lemma_tags_differ;
use crate::rules::models;
use crate::rules::occurs_before;
use crate::rules::parse_of;
use crate::rules::parsed;
use crate::rules::required_pending;
use crate::rules::required_tags;
use crate::rules::tag_of;
use crate::rules::validated;
use crate::rules::value_of;
use crate::rules::well_shaped;
use crate::structs::FIXMessage;
use crate::structs::FIXMessageField;
use crate::structs::FieldModel;
use crate::structs::MessageModel;
use crate::structs::models_of;
use crate::wire::cut_at;
use crate::wire::find_byte;
use crate::wire::lemma_span_before;
use crate::wire::lemma_text_of_wire;
use crate::wire::same_bytes;
use crate::wire::split_message;
use crate::wire::wire;
use crate::wire::wire_of;
use vstd::prelude::*;

verus! {

/// What a list of fields, or the error in its place, stands for.
pub open spec fn fields_outcome(result: Result<Vec<FIXMessageField>, FIXMessageError>) -> Result<
    Seq<FieldModel>,
    Fault,
> {
    match result {
        Ok(fields) => Ok(models_of(fields@)),
        Err(error) => Err(error@),
    }
}

/// What a message, or the error in its place, stands for.
pub open spec fn outcome(result: Result<FIXMessage, FIXMessageError>) -> Result<
    MessageModel,
    Fault,
> {
    match result {
        Ok(message) => Ok(message@),
        Err(error) => Err(error@),
    }
}

/// Splits a field at its first `=` into tag and value, and keeps the field's
/// index with them. A field without a `=`, or with nothing before or after
/// the first one, has no structure.
pub fn validate_field_structure<'a>(entry: (usize, &'a str)) -> (result: FIXMessageResult<
    (usize, &'a str, &'a str),
>)
    ensures
        match result {
            Ok((index, tag, value)) => {
                &&& well_shaped(wire(entry.1@))
                &&& index == entry.0
                &&& wire(tag@) == tag_of(wire(entry.1@))
                &&& wire(value@) == value_of(wire(entry.1@))
            },
            Err(error) => {
                &&& !well_shaped(wire(entry.1@))
                &&& error@ == Fault::InvalidFieldStructure
            },
        },
{
    let (index, field) = entry;
    let bytes = field.as_bytes();
    let n: usize = find_byte(bytes, FIELD_DELIMITER_BYTE);
    if n == 0 || n >= bytes.len() || n + 1 >= bytes.len() {
        return Err(FIXMessageError::InvalidFieldStructure);
    }
    proof {
        lemma_span_before(wire(field@), FIELD_DELIMITER_BYTE);
    }
    let (tag, value) = cut_at(field, n);
    Ok((index, tag, value))
}

/// Holds the tag of one of the first three fields against the tag that its
/// place asks for; a later field passes. An error that comes in goes out
/// unchanged.
pub fn validate_fields_order<'a>(res: FIXMessageResult<(usize, &'a str, &'a str)>) -> (result:
    FIXMessageResult<(&'a str, &'a str)>)
    ensures
        match res {
            Err(error) => result == Err::<(&'a str, &'a str), FIXMessageError>(error),
            Ok((index, tag, value)) => match header_fault(index as int, wire(tag@)) {
                Some(fault) => result is Err && result->Err_0@ == fault,
                None => result == Ok::<(&'a str, &'a str), FIXMessageError>((tag, value)),
            },
        },
{
    match res {
        Err(error) => Err(error),
        Ok((index, tag, value)) => {
            proof {
                lemma_text_of_wire(tag@);
            }
            if index == 0 {
                if !same_bytes(tag.as_bytes(), BEGIN_STRING.as_bytes()) {
                    return Err(FIXMessageError::InvalidFirstField(tag.to_owned()));
                }
            } else if index == 1 {
                if !same_bytes(tag.as_bytes(), BODY_LENGTH.as_bytes()) {
                    return Err(FIXMessageError::InvalidSecondField(tag.to_owned()));
                }
            } else if index == 2 {
                if !same_bytes(tag.as_bytes(), MSG_TYPE.as_bytes()) {
                    return Err(FIXMessageError::InvalidThirdField(tag.to_owned()));
                }
            }
            Ok((tag, value))
        },
    }
}

/// Makes the field that the caller owns from a tag and a value. An error that
/// comes in goes out unchanged.
pub fn map_to_fix_message_field<'a>(res: FIXMessageResult<(&'a str, &'a str)>) -> (result:
    FIXMessageResult<FIXMessageField>)
    ensures
        match res {
            Err(error) => result == Err::<FIXMessageField, FIXMessageError>(error),
            Ok((tag, value)) => result is Ok && result->Ok_0@ == (FieldModel {
                tag: tag@,
                value: value@,
            }),
        },
{
    match res {
        Err(error) => Err(error),
        Ok((tag, value)) => Ok(FIXMessageField { tag: tag.to_owned(), value: value.to_owned() }),
    }
}

/// Whether the tag is one of the seven that a message must hold.
pub fn is_required_field(tag: &str) -> (required: bool)
    ensures
        required == is_required_tag(wire(tag@)),
{
    let bytes = tag.as_bytes();
    let required = same_bytes(bytes, BEGIN_STRING.as_bytes())
        || same_bytes(bytes, BODY_LENGTH.as_bytes())
        || same_bytes(bytes, MSG_TYPE.as_bytes())
        || same_bytes(bytes, SENDER_COMP_ID.as_bytes())
        || same_bytes(bytes, TARGET_COMP_ID.as_bytes())
        || same_bytes(bytes, MSG_SEQ_NUM.as_bytes())
        || same_bytes(bytes, SENDING_TIME.as_bytes());
    required
}

/// The seven tags that a message must hold, each once: the working set that a
/// parse starts from.
pub fn required_fields() -> (tags: Vec<&'static str>)
    ensures
        tags@ == seq![
            BEGIN_STRING,
            BODY_LENGTH,
            MSG_TYPE,
            SENDER_COMP_ID,
            TARGET_COMP_ID,
            MSG_SEQ_NUM,
            SENDING_TIME,
        ],
        wire_of(tags@) == required_tags(),
{
    let tags: Vec<&'static str> = vec![
        BEGIN_STRING,
        BODY_LENGTH,
        MSG_TYPE,
        SENDER_COMP_ID,
        TARGET_COMP_ID,
        MSG_SEQ_NUM,
        SENDING_TIME,
    ];
    tags
}

/// The tags that differ from `tag`.
pub open spec fn differs_from(tag: Seq<u8>) -> spec_fn(Seq<u8>) -> bool {
    |other: Seq<u8>| other != tag
}

/// Takes the tag out of the working set, and says whether it was there. The
/// tags that stay keep their order.
pub fn take_pending(pending: &mut Vec<&'static str>, tag: &str) -> (found: bool)
    ensures
        found == wire_of(old(pending)@).contains(wire(tag@)),
        wire_of(final(pending)@) == wire_of(old(pending)@).filter(differs_from(wire(tag@))),
        forall|other: Seq<u8>|
            wire_of(final(pending)@).contains(other) <==> wire_of(old(pending)@).contains(other)
                && other != wire(tag@),
        wire_of(old(pending)@).no_duplicates() ==> wire_of(final(pending)@).no_duplicates(),
{
    let ghost before = wire_of(pending@);
    let ghost keeps = differs_from(wire(tag@));
    let ghost mut origin: Seq<int> = Seq::empty();
    let mut kept: Vec<&'static str> = Vec::new();
    let mut found = false;
    let mut i: usize = 0;
    assert(wire_of(kept@) =~= before.take(0).filter(keeps)) by {
        before.take(0).lemma_filter_len(keeps);
    }
    while i < pending.len()
        invariant
            0 <= i <= pending@.len(),
            pending@ == old(pending)@,
            before == wire_of(pending@),
            keeps == differs_from(wire(tag@)),
            wire_of(kept@) == before.take(i as int).filter(keeps),
            found == before.take(i as int).contains(wire(tag@)),
            origin.len() == kept@.len(),
            forall|k: int|
                0 <= k < origin.len() ==> 0 <= #[trigger] origin[k] < i && wire_of(kept@)[k]
                    == before[origin[k]],
            forall|a: int, b: int|
                0 <= a < b < origin.len() ==> #[trigger] origin[a] < #[trigger] origin[b],
        decreases pending@.len() - i,
    {
        let candidate: &'static str = pending[i];
        let ghost seen = before.take(i as int);
        let ghost next = before.take(i + 1);
        proof {
            assert(next =~= seen.push(before[i as int]));
            seen.lemma_filter_push(before[i as int], keeps);
            assert(next.contains(wire(tag@)) <==> seen.contains(wire(tag@)) || before[i as int]
                == wire(tag@)) by {
                if before[i as int] == wire(tag@) {
                    assert(next[i as int] == wire(tag@));
                }
            }
        }
        if same_bytes(candidate.as_bytes(), tag.as_bytes()) {
            found = true;
        } else {
            kept.push(candidate);
            proof {
                origin = origin.push(i as int);
            }
        }
        i += 1;
    }
    proof {
        let after = wire_of(kept@);
        assert(before.take(i as int) =~= before);
        assert forall|other: Seq<u8>|
            after.contains(other) <==> before.contains(other) && other != wire(tag@) by {
            if after.contains(other) {
                let k = choose|k: int| 0 <= k < after.len() && after[k] == other;
                before.lemma_filter_pred(keeps, k);
                assert(before[origin[k]] == other);
            }
            if before.contains(other) && other != wire(tag@) {
                let k = choose|k: int| 0 <= k < before.len() && before[k] == other;
                before.lemma_filter_contains(keeps, k);
            }
        }
        if before.no_duplicates() {
            assert forall|a: int, b: int|
                0 <= a < after.len() && 0 <= b < after.len() && a != b implies after[a]
                != after[b] by {
                if b < a {
                    assert(origin[b] < origin[a]);
                }
            }
        }
    }
    *pending = kept;
    found
}

/// Validates the fields of a message in order and makes the list of them. The
/// first field that breaks a rule ends the pass with its error.
pub fn validate_and_parse<'a>(message_fields: Vec<&'a str>) -> (result: FIXMessageResult<
    Vec<FIXMessageField>,
>)
    ensures
        fields_outcome(result) == validated(wire_of(message_fields@)),
        result matches Ok(accepted) ==> forall|i: int|
            0 <= i < accepted@.len() ==> (#[trigger] accepted@[i]).tag@.len() > 0
                && accepted@[i].value@.len() > 0,
{
    let ghost fields = wire_of(message_fields@);
    let mut pending: Vec<&'static str> = required_fields();
    let mut accepted: Vec<FIXMessageField> = Vec::new();
    let mut index: usize = 0;
    proof {
        lemma_tags_differ();
    }
    while index < message_fields.len()
        invariant
            fields == wire_of(message_fields@),
            0 <= index <= message_fields@.len(),
            faultless(fields, index as int),
            models_of(accepted@) == models(fields.take(index as int)),
            is_working_set(wire_of(pending@), fields, index as int),
            forall|i: int|
                0 <= i < accepted@.len() ==> (#[trigger] accepted@[i]).tag@.len() > 0
                    && accepted@[i].value@.len() > 0,
        decreases message_fields@.len() - index,
    {
        let field: &'a str = message_fields[index];
        let ordered = validate_fields_order(validate_field_structure((index, field)));
        match ordered {
            Err(error) => {
                proof {
                    lemma_first_fault(fields, index as int);
                }
                return Err(error);
            },
            Ok((tag, value)) => {
                let ghost this_tag = wire(tag@);
                proof {
                    lemma_tags_differ();
                    lemma_occurs_next(fields, index as int);
                }
                let ghost pending_before = wire_of(pending@);
                if is_required_field(tag) {
                    if !take_pending(&mut pending, tag) {
                        proof {
                            assert(fault_at(fields, index as int) == Some(
                                Fault::ExtraRequiredFieldFound,
                            ));
                            lemma_first_fault(fields, index as int);
                        }
                        return Err(FIXMessageError::ExtraRequiredFieldFound);
                    }
                }
                assert forall|other: Seq<u8>| #![trigger wire_of(pending@).contains(other)]
                    wire_of(pending@).contains(other) <==> is_required_tag(other)
                        && !occurs_before(fields, index + 1, other) by {
                    assert(wire_of(pending@).contains(other) <==> pending_before.contains(other)
                        && other != this_tag);
                    assert(pending_before.contains(other) <==> is_required_tag(other)
                        && !occurs_before(fields, index as int, other));
                    assert(occurs_before(fields, index + 1, other) <==> occurs_before(
                        fields,
                        index as int,
                        other,
                    ) || other == this_tag);
                }
                if same_bytes(tag.as_bytes(), CHECK_SUM.as_bytes()) {
                    if pending.len() != 0 {
                        proof {
                            let missing = wire_of(pending@)[0];
                            assert(pending_before.contains(missing));
                            assert(is_required_tag(missing) && !occurs_before(
                                fields,
                                index as int,
                                missing,
                            ));
                            assert(fault_at(fields, index as int) == Some(
                                Fault::NotAllRequiredFieldsFound,
                            ));
                            lemma_first_fault(fields, index as int);
                        }
                        return Err(FIXMessageError::NotAllRequiredFieldsFound);
                    }
                    proof {
                        assert(!required_pending(fields, index as int)) by {
                            assert forall|other: Seq<u8>|
                                is_required_tag(other) implies occurs_before(
                                fields,
                                index as int,
                                other,
                            ) by {
                                assert(!pending_before.contains(other));
                            }
                        }
                    }
                }
                match map_to_fix_message_field(Ok((tag, value))) {
                    Err(error) => {
                        return Err(error);
                    },
                    Ok(made) => {
                        accepted.push(made);
                        proof {
                            lemma_text_of_wire(tag@);
                            lemma_text_of_wire(value@);
                            assert(models(fields.take(index + 1)) =~= models(
                                fields.take(index as int),
                            ) + seq![field_of(fields[index as int])]);
                        }
                    },
                }
            },
        }
        index += 1;
    }
    proof {
        lemma_no_fault(fields);
        assert(fields.take(index as int) =~= fields);
    }
    Ok(accepted)
}

/// Parses a message of which the checksum validator has said `verdict`: the
/// validator's error or refusal comes back as the error; on its consent the
/// message is split into fields, the fields are validated, and the message is
/// made with the first field's value as its version.
pub fn parse_judged(inbound_message: &str, verdict: Result<bool, FIXChecksumError>) -> (result:
    FIXMessageResult<FIXMessage>)
    ensures
        outcome(result) == parsed(wire(inbound_message@), verdict),
        result matches Ok(message) ==> message@.well_formed(),
{
    match verdict {
        Err(error) => Err(FIXMessageError::InvalidChecksum(error)),
        Ok(false) => Err(FIXMessageError::InvalidChecksumValue),
        Ok(true) => {
            let message_fields = split_message(inbound_message);
            match validate_and_parse(message_fields) {
                Err(error) => Err(error),
                Ok(fix_message_fields) => {
                    assert(models_of(fix_message_fields@).len() == wire_of(
                        message_fields@,
                    ).len());
                    let version: String = fix_message_fields[0].value.clone();
                    Ok(FIXMessage { version, data: fix_message_fields })
                },
            }
        },
    }
}

/// Validates and parses a FIX message that the checksum validator can judge.
///
/// The checksum comes first: an error of the validator, or a checksum that
/// does not match, ends the parse. Then the fields are validated in order,
/// and the first field that breaks a rule gives the error.
pub fn parse(inbound_message: &str) -> (result: FIXMessageResult<FIXMessage>)
    requires
        is_judgeable(wire(inbound_message@)),
    ensures
        outcome(result) == parse_of(inbound_message@),
        result matches Ok(message) ==> message@.well_formed(),
{
    let verdict = validate_checksum(inbound_message);
    parse_judged(inbound_message, verdict)
}

/// Validates and parses any text: `None` where the checksum validator cannot
/// judge the message, else what `parse` gives.
pub fn try_parse(inbound_message: &str) -> (result: Option<FIXMessageResult<FIXMessage>>)
    ensures
        result is Some <==> is_judgeable(wire(inbound_message@)),
        result matches Some(given) ==> outcome(given) == parse_of(inbound_message@),
        result matches Some(Ok(message)) ==> message@.well_formed(),
{
    if can_judge(inbound_message) {
        Some(parse(inbound_message))
    } else {
        None
    }
}

} // verus!
