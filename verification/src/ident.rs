//! Record identifiers: twelve bytes, written as twenty-four hexadecimal
//! digits.

use vstd::prelude::*;

verus! {

/// The identifier of a stored record or of a user.
#[derive(Debug, Clone, Copy, PartialEq, Eq, Hash)]
pub struct RecordId {
    pub bytes: [u8; 12],
}

/// The value of a hexadecimal digit, in either case.
pub open spec fn hex_value(c: char) -> Option<int> {
    if '0' <= c <= '9' {
        Some(c as int - '0' as int)
    } else if 'a' <= c <= 'f' {
        Some(c as int - 'a' as int + 10)
    } else if 'A' <= c <= 'F' {
        Some(c as int - 'A' as int + 10)
    } else {
        None
    }
}

/// Whether a text is an identifier: exactly twenty-four hexadecimal digits.
pub open spec fn is_id_text(text: Seq<char>) -> bool {
    text.len() == 24 && forall|i: int| 0 <= i < 24 ==> hex_value(#[trigger] text[i]) is Some
}

/// The byte that the digits `2 * i` and `2 * i + 1` of an identifier spell.
pub open spec fn id_byte(text: Seq<char>, i: int) -> int {
    16 * hex_value(text[2 * i])->0 + hex_value(text[2 * i + 1])->0
}

/// Whether `id` is what the identifier text `text` spells.
pub open spec fn spells(text: Seq<char>, id: RecordId) -> bool {
    forall|i: int| 0 <= i < 12 ==> #[trigger] id.bytes@[i] == id_byte(text, i)
}

/// Reads an identifier with `ObjectId::parse_str` of the `bson` crate, as
/// `mongodb` hands it on. That function decodes the text with
/// `hex::decode`, which takes an even number of hexadecimal digits of either
/// case, two to a byte with the high digit first, and then asks for exactly
/// twelve bytes; the contract says the same of the text and of each byte.
#[verifier::external_body]
pub(crate) fn read_record_id(text: &str) -> (id: Option<RecordId>)
    ensures
        id is Some <==> is_id_text(text@),
        id is Some ==> spells(text@, id->0),
{
    match mongodb::bson::oid::ObjectId::parse_str(text) {
        Ok(id) => Some(RecordId { bytes: id.bytes() }),
        Err(_) => None,
    }
}

} // verus!
