//! Laws of addresses and UUIDs: what their kinds and their text tell.

use crate::address::{
    address_text, assigned_uuid, bluetooth_uuid16, bluetooth_uuid32, classify_random_address,
    format_address, lemma_le_digits, octet, octet_text, uuid_from_le_bytes, AddressType,
};
use crate::laws::text::{is_written, law_hex_is_written_by_place, stands_for};
use crate::text::{hex, hex_digit, lemma_hex_byte, lemma_hex_len};
use vstd::prelude::*;
use vstd::string::*;

verus! {

/// The bits 47 and 46 of a random address tell its kind: both set, a static address;
/// the lower alone, a resolvable one; none, one that is not resolvable; the upper
/// alone is reserved.
pub proof fn law_top_bits_tell_the_kind(address: u64, kind: AddressType)
    requires
        call_ensures(classify_random_address, (address,), kind),
    ensures
        kind == AddressType::RandomStatic <==> address & 0x8000_0000_0000 != 0 && address
            & 0x4000_0000_0000 != 0,
        kind == AddressType::ResolvablePrivate <==> address & 0x8000_0000_0000 == 0 && address
            & 0x4000_0000_0000 != 0,
        kind == AddressType::NonResolvablePrivate <==> address & 0x8000_0000_0000 == 0 && address
            & 0x4000_0000_0000 == 0,
        kind == AddressType::Unknown <==> address & 0x8000_0000_0000 != 0 && address
            & 0x4000_0000_0000 == 0,
{
    assert((address / 0x4000_0000_0000) % 4 >= 2 <==> address & 0x8000_0000_0000 != 0)
        by (bit_vector);
    assert((address / 0x4000_0000_0000) % 2 == 1 <==> address & 0x4000_0000_0000 != 0)
        by (bit_vector);
}

/// What follows the eight digits of a UUID that Bluetooth assigned.
pub open spec fn shared_tail() -> Seq<char> {
    seq![
        '-', '0', '0', '0', '0', '-', '1', '0', '0', '0', '-', '8', '0', '0', '0', '-', '0', '0',
        '8', '0', '5', 'f', '9', 'b', '3', '4', 'f', 'b',
    ]
}

/// The text is that of a UUID which Bluetooth assigned: the number in eight digits,
/// then what all such UUIDs share.
pub open spec fn is_assigned(text: Seq<char>, number: nat) -> bool {
    &&& text.len() == 36
    &&& is_written(text.subrange(0, 8), number, false)
    &&& text.subrange(8, 36) == shared_tail()
}

/// A UUID that Bluetooth assigned is written so.
pub proof fn law_assigned_uuids_are_written_so(number: nat)
    ensures
        is_assigned(assigned_uuid(number), number),
{
    reveal_strlit("-0000-1000-8000-00805f9b34fb");
    law_hex_is_written_by_place(number, 8, false);
    let text: Seq<char> = assigned_uuid(number);
    assert(text.subrange(0, 8) =~= hex(number, 8, false));
    assert(text.subrange(8, 36) =~= shared_tail());
}

/// A 16-bit UUID is written as the number that it is.
pub proof fn law_uuid16_is_written_in_full(value: u16, uuid: String)
    requires
        call_ensures(bluetooth_uuid16, (value,), uuid),
    ensures
        is_assigned(uuid@, value as nat),
{
    law_assigned_uuids_are_written_so(value as nat);
}

/// A 32-bit UUID is written as the number that it is.
pub proof fn law_uuid32_is_written_in_full(value: u32, uuid: String)
    requires
        call_ensures(bluetooth_uuid32, (value,), uuid),
    ensures
        is_assigned(uuid@, value as nat),
{
    law_assigned_uuids_are_written_so(value as nat);
}

/// The two digits at a place of a text are those of a byte.
pub open spec fn shows_byte(text: Seq<char>, place: int, byte: nat, upper: bool) -> bool {
    &&& stands_for(text[place], byte / 16, upper)
    &&& stands_for(text[place + 1], byte % 16, upper)
}

/// Where the digits of each byte of a UUID stand, for the bytes from the lowest up.
pub open spec fn byte_places() -> Seq<int> {
    seq![34, 32, 30, 28, 26, 24, 21, 19, 16, 14, 11, 9, 6, 4, 2, 0]
}

/// The text is that of the UUID whose bytes come lowest first: each byte stands at its
/// place, and hyphens part the groups.
pub open spec fn is_uuid_of(text: Seq<char>, bytes: Seq<u8>) -> bool {
    &&& text.len() == 36
    &&& text[8] == '-' && text[13] == '-' && text[18] == '-' && text[23] == '-'
    &&& forall|i: int|
        0 <= i < 16 ==> shows_byte(text, byte_places()[i], #[trigger] bytes[i] as nat, false)
}

/// Sixteen bytes, and no other number of them, are a UUID, and its text shows each byte.
pub proof fn law_uuid_text_shows_each_byte(bytes: &[u8], uuid: Option<String>)
    requires
        call_ensures(uuid_from_le_bytes, (bytes,), uuid),
    ensures
        uuid is None <==> bytes@.len() != 16,
        uuid matches Some(text) ==> is_uuid_of(text@, bytes@),
{
    if let Some(text) = uuid {
        law_le_uuid_shows_each_byte(bytes@);
    }
}

/// The text of a UUID shows each of its bytes.
pub proof fn law_le_uuid_shows_each_byte(bytes: Seq<u8>)
    requires
        bytes.len() == 16,
    ensures
        is_uuid_of(crate::address::le_uuid(bytes), bytes),
{
    let text: Seq<char> = crate::address::le_uuid(bytes);
    let digits: Seq<char> = hex(crate::address::le_value(bytes), 32, false);
    lemma_le_digits(bytes);
    assert forall|i: int| 0 <= i < 16 implies shows_byte(
        text,
        byte_places()[i],
        #[trigger] bytes[i] as nat,
        false,
    ) by {
        let p: int = byte_places()[i];
        assert(text[p] == digits[2 * (15 - i)]);
        assert(text[p + 1] == digits[2 * (15 - i) + 1]);
        assert(digits[2 * (15 - i)] == hex_digit((bytes[i] / 16) as nat, false));
        assert(digits[2 * (15 - i) + 1] == hex_digit((bytes[i] % 16) as nat, false));
    }
}

/// The text of an address shows its six low bytes in capital digits, the highest first,
/// with colons between.
pub open spec fn is_address_of(text: Seq<char>, address: nat) -> bool {
    &&& text.len() == 17
    &&& text[2] == ':' && text[5] == ':' && text[8] == ':' && text[11] == ':' && text[14] == ':'
    &&& shows_byte(text, 0, (address / 0x100_0000_0000) % 256, true)
    &&& shows_byte(text, 3, (address / 0x1_0000_0000) % 256, true)
    &&& shows_byte(text, 6, (address / 0x100_0000) % 256, true)
    &&& shows_byte(text, 9, (address / 0x1_0000) % 256, true)
    &&& shows_byte(text, 12, (address / 0x100) % 256, true)
    &&& shows_byte(text, 15, address % 256, true)
}

proof fn lemma_octet_shows(address: nat, place: nat)
    ensures
        octet_text(address, place).len() == 2,
        shows_byte(octet_text(address, place), 0, octet(address, place), true),
    decreases place,
{
    lemma_hex_len(octet(address, place), 2, true);
    if place == 0 {
        lemma_hex_byte(octet(address, 0) as u8, true);
    } else {
        lemma_octet_shows(address / 256, (place - 1) as nat);
    }
}

/// The text of an address shows its six low bytes.
pub proof fn law_address_text_shows_each_byte(address: u64, text: String)
    requires
        call_ensures(format_address, (address,), text),
    ensures
        is_address_of(text@, address as nat),
{
    law_address_texts_show_each_byte(address as nat);
}

/// Address texts show the six low bytes of the address.
pub proof fn law_address_texts_show_each_byte(address: nat)
    ensures
        is_address_of(address_text(address), address),
{
    let a: nat = address;
    reveal_with_fuel(octet, 6);
    lemma_octet_shows(a, 0);
    lemma_octet_shows(a, 1);
    lemma_octet_shows(a, 2);
    lemma_octet_shows(a, 3);
    lemma_octet_shows(a, 4);
    lemma_octet_shows(a, 5);
    assert(a / 256 / 256 == a / 0x1_0000);
    assert(a / 256 / 256 / 256 == a / 0x100_0000);
    assert(a / 256 / 256 / 256 / 256 == a / 0x1_0000_0000);
    assert(a / 256 / 256 / 256 / 256 / 256 == a / 0x100_0000_0000);
    let t: Seq<char> = address_text(a);
    assert(t[0] == octet_text(a, 5)[0] && t[1] == octet_text(a, 5)[1]);
    assert(t[3] == octet_text(a, 4)[0] && t[4] == octet_text(a, 4)[1]);
    assert(t[6] == octet_text(a, 3)[0] && t[7] == octet_text(a, 3)[1]);
    assert(t[9] == octet_text(a, 2)[0] && t[10] == octet_text(a, 2)[1]);
    assert(t[12] == octet_text(a, 1)[0] && t[13] == octet_text(a, 1)[1]);
    assert(t[15] == octet_text(a, 0)[0] && t[16] == octet_text(a, 0)[1]);
}

} // verus!
