//! What holds of every parse: which messages parse, and which error each
//! broken rule gives.
use crate::checksum::FIXChecksumError;
use crate::checksum::byte_sum;
use crate::checksum::checksum_verdict;
use crate::checksum::declared_checksum;
use crate::checksum::format_failure;
use crate::checksum::is_judgeable;
use crate::checksum::lemma_trailer_in_bounds;
use crate::checksum::trailer_at;
use crate::checksum::trailer_start;
use crate::constants::FIELD_DELIMITER_BYTE;
use crate::constants::MESSAGE_DELIMITER_BYTE;
use crate::errors::Fault;
use crate::fix_message_fields::BEGIN_STRING;
use crate::fix_message_fields::BODY_LENGTH;
use crate::fix_message_fields::CHECK_SUM;
use crate::fix_message_fields::MSG_TYPE;
use crate::rules::failed;
use crate::rules::fault_at;
use crate::rules::faultless;
use crate::rules::field_of;
use crate::rules::fields_of;
use crate::rules::first_fault_from;
use crate::rules::is_checksum_tag;
use crate::rules::is_required_tag;
use crate::rules::lemma_first_fault;
use crate::rules::lemma_no_fault;
use crate::rules::lemma_tags_differ;
use crate::rules::models;
use crate::rules::occurs_before;
use crate::rules::parse_of;
use crate::rules::parsed;
use crate::rules::required_pending;
use crate::rules::required_tags;
use crate::rules::tag_of;
use crate::rules::validated;
use crate::rules::well_shaped;
use crate::structs::FieldModel;
use crate::structs::MessageModel;
use crate::wire::join_with;
use crate::wire::law_split_of_join;
use crate::wire::lemma_first_piece;
use crate::wire::lemma_span_before;
use crate::wire::lemma_span_before_is;
use crate::wire::lemma_split_at_delimiter;
use crate::wire::lemma_text_of_wire;
use crate::wire::span_before;
use crate::wire::split_on;
use crate::wire::text;
use crate::wire::wire;
use vstd::prelude::*;
use vstd::utf8::is_ascii_chars_encode_utf8;

verus! {

/// Whether no field before the one at `index` has the tag of that field.
pub open spec fn is_first_of_its_tag(fields: Seq<Seq<u8>>, index: int) -> bool {
    !occurs_before(fields, index, tag_of(fields[index]))
}

/// Whether exactly one field has the tag.
pub open spec fn occurs_once(fields: Seq<Seq<u8>>, tag: Seq<u8>) -> bool {
    exists|j: int|
        0 <= j < fields.len() && #[trigger] tag_of(fields[j]) == tag && forall|k: int|
            0 <= k < fields.len() && #[trigger] tag_of(fields[k]) == tag ==> k == j
}

/// The fields that pass validation: each has its shape; the first three, as
/// far as there are that many, have the tags `8`, `9` and `35`; no required
/// tag occurs twice; and every required tag has occurred before a checksum
/// field.
pub open spec fn acceptable(fields: Seq<Seq<u8>>) -> bool {
    &&& forall|i: int| 0 <= i < fields.len() ==> well_shaped(#[trigger] fields[i])
    &&& fields.len() > 0 ==> tag_of(fields[0]) == wire(BEGIN_STRING@)
    &&& fields.len() > 1 ==> tag_of(fields[1]) == wire(BODY_LENGTH@)
    &&& fields.len() > 2 ==> tag_of(fields[2]) == wire(MSG_TYPE@)
    &&& forall|i: int|
        0 <= i < fields.len() && is_required_tag(#[trigger] tag_of(fields[i]))
            ==> is_first_of_its_tag(fields, i)
    &&& forall|i: int|
        0 <= i < fields.len() && is_checksum_tag(#[trigger] tag_of(fields[i]))
            ==> !required_pending(fields, i)
}

/// The fields of a complete message: each has its shape; the first three have
/// the tags `8`, `9` and `35`; each of the seven required tags occurs exactly
/// once; and no checksum field stands before one of them.
pub open spec fn complete(fields: Seq<Seq<u8>>) -> bool {
    &&& fields.len() >= 3
    &&& forall|i: int| 0 <= i < fields.len() ==> well_shaped(#[trigger] fields[i])
    &&& tag_of(fields[0]) == wire(BEGIN_STRING@)
    &&& tag_of(fields[1]) == wire(BODY_LENGTH@)
    &&& tag_of(fields[2]) == wire(MSG_TYPE@)
    &&& forall|tag: Seq<u8>| is_required_tag(tag) ==> #[trigger] occurs_once(fields, tag)
    &&& forall|i: int|
        0 <= i < fields.len() && is_checksum_tag(#[trigger] tag_of(fields[i]))
            ==> !required_pending(fields, i)
}

/// A message whose checksum the validator has judged and found to match: what
/// a parse gives is then up to the fields.
pub open spec fn checksum_matches(message: Seq<char>) -> bool {
    is_judgeable(wire(message)) && checksum_verdict(message) == Ok::<bool, FIXChecksumError>(
        true,
    )
}

/// The fields of a complete message are acceptable.
pub proof fn lemma_complete_is_acceptable(fields: Seq<Seq<u8>>)
    requires
        complete(fields),
    ensures
        acceptable(fields),
{
    assert forall|i: int|
        0 <= i < fields.len() && is_required_tag(
            #[trigger] tag_of(fields[i]),
        ) implies is_first_of_its_tag(fields, i) by {
        assert(occurs_once(fields, tag_of(fields[i])));
    }
}

/// Validation fails as soon as one field breaks a rule.
pub proof fn lemma_fault_fails(fields: Seq<Seq<u8>>, index: int)
    requires
        0 <= index < fields.len(),
        fault_at(fields, index) is Some,
    ensures
        validated(fields) is Err,
{
    lemma_fault_fails_from(fields, 0, index);
}

proof fn lemma_fault_fails_from(fields: Seq<Seq<u8>>, from: int, index: int)
    requires
        0 <= from <= index < fields.len(),
        fault_at(fields, index) is Some,
    ensures
        first_fault_from(fields, from) is Some,
    decreases index - from,
{
    if from < index && fault_at(fields, from) is None {
        lemma_fault_fails_from(fields, from + 1, index);
    }
}

/// Validation finds no fault only where no field breaks a rule.
pub proof fn lemma_passes_faultless(fields: Seq<Seq<u8>>)
    requires
        validated(fields) is Ok,
    ensures
        faultless(fields, fields.len() as int),
{
    assert forall|j: int| 0 <= j < fields.len() implies #[trigger] fault_at(
        fields,
        j,
    ) is None by {
        if fault_at(fields, j) is Some {
            lemma_fault_fails(fields, j);
        }
    }
}

/// Validation passes exactly the acceptable fields, and hands them out in
/// wire order.
pub proof fn law_validation_passes_the_acceptable(fields: Seq<Seq<u8>>)
    ensures
        validated(fields) is Ok <==> acceptable(fields),
        acceptable(fields) ==> validated(fields) == Ok::<Seq<FieldModel>, Fault>(models(fields)),
{
    if acceptable(fields) {
        assert(faultless(fields, fields.len() as int));
        lemma_no_fault(fields);
    }
    if validated(fields) is Ok {
        lemma_passes_faultless(fields);
        assert forall|i: int| 0 <= i < fields.len() implies well_shaped(
            #[trigger] fields[i],
        ) by {
            assert(fault_at(fields, i) is None);
        }
        if fields.len() > 1 {
            assert(fault_at(fields, 1) is None);
        }
        if fields.len() > 2 {
            assert(fault_at(fields, 2) is None);
        }
        assert forall|i: int|
            0 <= i < fields.len() && is_required_tag(
                #[trigger] tag_of(fields[i]),
            ) implies is_first_of_its_tag(fields, i) by {
            assert(fault_at(fields, i) is None);
        }
        assert forall|i: int|
            0 <= i < fields.len() && is_checksum_tag(
                #[trigger] tag_of(fields[i]),
            ) implies !required_pending(fields, i) by {
            assert(fault_at(fields, i) is None);
        }
    }
}

/// Where the checksum matches, a parse gives what validating the fields
/// gives: their fault, or the fields with the first value as the version.
pub proof fn law_fields_decide(message: Seq<char>)
    requires
        checksum_matches(message),
    ensures
        match validated(fields_of(message)) {
            Err(fault) => parse_of(message) == failed(fault),
            Ok(fields) => parse_of(message) == Ok::<MessageModel, Fault>(
                MessageModel { version: fields[0].value, fields },
            ),
        },
{
}

/// A complete message whose checksum matches parses: the fields come out in
/// wire order, and the version is the value of the first of them.
pub proof fn law_complete_message_parses(message: Seq<char>)
    requires
        checksum_matches(message),
        complete(fields_of(message)),
    ensures
        parse_of(message) == Ok::<MessageModel, Fault>(
            MessageModel {
                version: field_of(fields_of(message)[0]).value,
                fields: models(fields_of(message)),
            },
        ),
{
    lemma_complete_is_acceptable(fields_of(message));
    law_validation_passes_the_acceptable(fields_of(message));
}

/// A message that is not empty and in which no checksum field opens fails
/// with `InvalidChecksum(ChecksumFieldNotFound)`; the empty message fails
/// with `InvalidChecksum(InvalidEmptyMessage)`.
pub proof fn law_missing_checksum_field(message: Seq<char>)
    requires
        trailer_start(wire(message)) is None,
    ensures
        is_judgeable(wire(message)),
        wire(message).len() > 0 ==> parse_of(message) == failed(
            Fault::InvalidChecksum(FIXChecksumError::ChecksumFieldNotFound),
        ),
        wire(message).len() == 0 ==> parse_of(message) == failed(
            Fault::InvalidChecksum(FIXChecksumError::InvalidEmptyMessage),
        ),
{
}

/// A message whose checksum value is no number fails with
/// `InvalidChecksum(ChecksumFieldInvalidFormat(..))` and the failure that
/// the validator reports.
pub proof fn law_malformed_checksum(message: Seq<char>, at: int)
    requires
        is_judgeable(wire(message)),
        trailer_start(wire(message)) == Some(at),
        declared_checksum(wire(message).subrange(at + 4, at + 7)) is None,
    ensures
        parse_of(message) == failed(
            Fault::InvalidChecksum(
                FIXChecksumError::ChecksumFieldInvalidFormat(format_failure(message)),
            ),
        ),
{
    lemma_trailer_in_bounds(wire(message), 0);
}

/// A message whose checksum value is a number, but not the sum of the bytes
/// before the checksum field modulo 256, fails with `InvalidChecksumValue`.
pub proof fn law_wrong_checksum(message: Seq<char>, at: int, declared: nat)
    requires
        is_judgeable(wire(message)),
        trailer_start(wire(message)) == Some(at),
        declared_checksum(wire(message).subrange(at + 4, at + 7)) == Some(declared),
        declared != byte_sum(wire(message).take(at + 1)) % 256,
    ensures
        parse_of(message) == failed(Fault::InvalidChecksumValue),
{
    lemma_trailer_in_bounds(wire(message), 0);
}

/// A field without its shape fails the message. The error is
/// `InvalidFieldStructure` where no field before it breaks a rule.
pub proof fn law_shapeless_field_fails(message: Seq<char>, index: int)
    requires
        checksum_matches(message),
        0 <= index < fields_of(message).len(),
        !well_shaped(fields_of(message)[index]),
    ensures
        parse_of(message) is Err,
        faultless(fields_of(message), index) ==> parse_of(message) == failed(
            Fault::InvalidFieldStructure,
        ),
{
    let fields = fields_of(message);
    lemma_fault_fails(fields, index);
    if faultless(fields, index) {
        lemma_first_fault(fields, index);
    }
}

/// A first field with another tag than `8` fails the message with
/// `InvalidFirstField` and that tag.
pub proof fn law_first_field(message: Seq<char>)
    requires
        checksum_matches(message),
        well_shaped(fields_of(message)[0]),
        tag_of(fields_of(message)[0]) != wire(BEGIN_STRING@),
    ensures
        parse_of(message) == failed(
            Fault::InvalidFirstField(text(tag_of(fields_of(message)[0]))),
        ),
{
    lemma_first_piece(wire(message), MESSAGE_DELIMITER_BYTE);
    lemma_first_fault(fields_of(message), 0);
}

/// After a sound first field, a second field with another tag than `9` fails
/// the message with `InvalidSecondField` and that tag.
pub proof fn law_second_field(message: Seq<char>)
    requires
        checksum_matches(message),
        fields_of(message).len() > 1,
        fault_at(fields_of(message), 0) is None,
        well_shaped(fields_of(message)[1]),
        tag_of(fields_of(message)[1]) != wire(BODY_LENGTH@),
    ensures
        parse_of(message) == failed(
            Fault::InvalidSecondField(text(tag_of(fields_of(message)[1]))),
        ),
{
    lemma_first_fault(fields_of(message), 1);
}

/// After two sound fields, a third field with another tag than `35` fails the
/// message with `InvalidThirdField` and that tag.
pub proof fn law_third_field(message: Seq<char>)
    requires
        checksum_matches(message),
        fields_of(message).len() > 2,
        fault_at(fields_of(message), 0) is None,
        fault_at(fields_of(message), 1) is None,
        well_shaped(fields_of(message)[2]),
        tag_of(fields_of(message)[2]) != wire(MSG_TYPE@),
    ensures
        parse_of(message) == failed(
            Fault::InvalidThirdField(text(tag_of(fields_of(message)[2]))),
        ),
{
    lemma_first_fault(fields_of(message), 2);
}

/// A message in which some required tag has not occurred before a checksum
/// field fails. The error is `NotAllRequiredFieldsFound` where the checksum
/// field has its shape, stands after the first three fields, and no field
/// before it breaks a rule.
pub proof fn law_missing_required_field(message: Seq<char>, index: int, missing: Seq<u8>)
    requires
        checksum_matches(message),
        0 <= index < fields_of(message).len(),
        is_checksum_tag(tag_of(fields_of(message)[index])),
        is_required_tag(missing),
        !occurs_before(fields_of(message), index, missing),
    ensures
        parse_of(message) is Err,
        index >= 3 && well_shaped(fields_of(message)[index]) && faultless(
            fields_of(message),
            index,
        ) ==> parse_of(message) == failed(Fault::NotAllRequiredFieldsFound),
{
    let fields = fields_of(message);
    lemma_tags_differ();
    lemma_fault_fails(fields, index);
    if index >= 3 && well_shaped(fields[index]) && faultless(fields, index) {
        lemma_first_fault(fields, index);
    }
}

/// A message in which a required tag occurs twice fails. The error is
/// `ExtraRequiredFieldFound` where the second of the two fields has its
/// shape, stands after the first three fields, and no field before it breaks
/// a rule.
pub proof fn law_repeated_required_field(message: Seq<char>, first: int, second: int)
    requires
        checksum_matches(message),
        0 <= first < second < fields_of(message).len(),
        is_required_tag(tag_of(fields_of(message)[first])),
        tag_of(fields_of(message)[first]) == tag_of(fields_of(message)[second]),
    ensures
        parse_of(message) is Err,
        second >= 3 && well_shaped(fields_of(message)[second]) && faultless(
            fields_of(message),
            second,
        ) ==> parse_of(message) == failed(Fault::ExtraRequiredFieldFound),
{
    let fields = fields_of(message);
    lemma_fault_fails(fields, second);
    if second >= 3 && well_shaped(fields[second]) && faultless(fields, second) {
        lemma_first_fault(fields, second);
    }
}

/// The wire bytes of the checksum tag.
pub proof fn lemma_checksum_tag_bytes()
    ensures
        wire(CHECK_SUM@) == seq![0x31u8, 0x30u8],
{
    reveal_strlit("10");
    is_ascii_chars_encode_utf8(CHECK_SUM@);
}

/// Where the opening bytes of a checksum field stand, a field with the
/// checksum tag begins, and it is not the first field.
pub proof fn lemma_trailer_opens_a_field(bytes: Seq<u8>, at: int) -> (index: int)
    requires
        trailer_at(bytes, at),
    ensures
        1 <= index < split_on(bytes, MESSAGE_DELIMITER_BYTE).len(),
        is_checksum_tag(tag_of(split_on(bytes, MESSAGE_DELIMITER_BYTE)[index])),
{
    let before = split_on(bytes.take(at), MESSAGE_DELIMITER_BYTE);
    let rest = bytes.skip(at + 1);
    lemma_split_at_delimiter(bytes, MESSAGE_DELIMITER_BYTE, at);
    lemma_first_piece(bytes.take(at), MESSAGE_DELIMITER_BYTE);
    lemma_first_piece(rest, MESSAGE_DELIMITER_BYTE);
    lemma_span_before(rest, MESSAGE_DELIMITER_BYTE);
    let n = span_before(rest, MESSAGE_DELIMITER_BYTE) as int;
    assert(n >= 3);
    let field = rest.take(n);
    lemma_span_before_is(field, FIELD_DELIMITER_BYTE, 2);
    lemma_checksum_tag_bytes();
    assert(tag_of(field) =~= seq![0x31u8, 0x30u8]);
    before.len() as int
}

/// A message that parses is complete, and with the checksum field it has at
/// least eight fields.
pub proof fn law_parsed_message_is_complete(message: Seq<char>)
    requires
        is_judgeable(wire(message)),
        parse_of(message) is Ok,
    ensures
        checksum_matches(message),
        complete(fields_of(message)),
        fields_of(message).len() >= 8,
{
    let bytes = wire(message);
    let fields = fields_of(message);
    let at = trailer_start(bytes)->Some_0;
    lemma_trailer_in_bounds(bytes, 0);
    let index = lemma_trailer_opens_a_field(bytes, at);
    law_validation_passes_the_acceptable(fields);
    assert forall|tag: Seq<u8>| is_required_tag(tag) implies #[trigger] occurs_once(
        fields,
        tag,
    ) by {
        assert(occurs_before(fields, index, tag));
        let j = choose|j: int|
            0 <= j < index && j < fields.len() && #[trigger] tag_of(fields[j]) == tag;
        assert forall|k: int|
            0 <= k < fields.len() && #[trigger] tag_of(fields[k]) == tag implies k == j by {
            assert(is_first_of_its_tag(fields, j) && is_first_of_its_tag(fields, k));
        }
    }
    lemma_tags_differ();
    let tags = required_tags();
    let places = Seq::new(
        7,
        |i: int|
            choose|j: int|
                0 <= j < index && j < fields.len() && #[trigger] tag_of(fields[j]) == tags[i],
    );
    assert forall|i: int| 0 <= i < 7 implies 0 <= #[trigger] places[i] < index && tag_of(
        fields[places[i]],
    ) == tags[i] by {
        assert(occurs_before(fields, index, tags[i]));
    }
    assert forall|a: int, b: int| 0 <= a < b < 7 implies places[a] != places[b] by {
        assert(tags[a] != tags[b]);
    }
    assert(places[0] != places[1] && places[1] != places[2] && places[2] != places[3]
        && places[3] != places[4] && places[4] != places[5] && places[5] != places[6]);
}

/// The wire form of a field: its tag, the field delimiter, its value.
pub open spec fn field_wire(field: FieldModel) -> Seq<u8> {
    wire(field.tag) + seq![FIELD_DELIMITER_BYTE] + wire(field.value)
}

/// The wire form of a list of fields: their wire forms, with one message
/// delimiter between neighbours.
pub open spec fn fields_wire(fields: Seq<FieldModel>) -> Seq<u8> {
    join_with(fields.map_values(|field: FieldModel| field_wire(field)), MESSAGE_DELIMITER_BYTE)
}

/// A field that the wire can carry: neither its tag nor its value is empty,
/// its tag holds no delimiter, and its value holds no message delimiter.
pub open spec fn is_plain(field: FieldModel) -> bool {
    &&& field.tag.len() > 0
    &&& field.value.len() > 0
    &&& !wire(field.tag).contains(FIELD_DELIMITER_BYTE)
    &&& !wire(field.tag).contains(MESSAGE_DELIMITER_BYTE)
    &&& !wire(field.value).contains(MESSAGE_DELIMITER_BYTE)
}

/// The wire form of a plain field has its shape and no message delimiter, and
/// stands for the field.
pub proof fn lemma_field_wire(field: FieldModel)
    requires
        is_plain(field),
    ensures
        well_shaped(field_wire(field)),
        !field_wire(field).contains(MESSAGE_DELIMITER_BYTE),
        tag_of(field_wire(field)) == wire(field.tag),
        field_of(field_wire(field)) == field,
{
    let tag = wire(field.tag);
    let value = wire(field.value);
    let whole = field_wire(field);
    lemma_text_of_wire(field.tag);
    lemma_text_of_wire(field.value);
    assert(tag.len() > 0 && value.len() > 0);
    assert forall|j: int| 0 <= j < tag.len() implies whole[j] != FIELD_DELIMITER_BYTE by {
        assert(whole[j] == tag[j]);
    }
    lemma_span_before_is(whole, FIELD_DELIMITER_BYTE, tag.len() as int);
    assert(whole.skip(tag.len() as int + 1) =~= value);
    assert forall|j: int| 0 <= j < whole.len() implies whole[j] != MESSAGE_DELIMITER_BYTE by {
        if j < tag.len() {
            assert(whole[j] == tag[j]);
        } else if j > tag.len() {
            assert(whole[j] == value[j - tag.len() - 1]);
        }
    }
}

/// Parsing the wire form of a message gives the message back: where the
/// message is well formed, its fields are plain and their wire forms are
/// acceptable, and the checksum matches.
pub proof fn law_wire_form_parses_back(message: MessageModel)
    requires
        message.well_formed(),
        forall|i: int| 0 <= i < message.fields.len() ==> is_plain(#[trigger] message.fields[i]),
        acceptable(message.fields.map_values(|field: FieldModel| field_wire(field))),
    ensures
        parsed(fields_wire(message.fields), Ok(true)) == Ok::<MessageModel, Fault>(message),
{
    let pieces = message.fields.map_values(|field: FieldModel| field_wire(field));
    assert forall|i: int| 0 <= i < pieces.len() implies !(#[trigger] pieces[i]).contains(
        MESSAGE_DELIMITER_BYTE,
    ) by {
        lemma_field_wire(message.fields[i]);
    }
    law_split_of_join(pieces, MESSAGE_DELIMITER_BYTE);
    law_validation_passes_the_acceptable(pieces);
    assert forall|i: int| 0 <= i < pieces.len() implies models(pieces)[i]
        == message.fields[i] by {
        lemma_field_wire(message.fields[i]);
    }
    assert(models(pieces) =~= message.fields);
}

} // verus!
