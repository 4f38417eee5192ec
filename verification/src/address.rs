//! Bluetooth addresses and UUIDs: their kinds and their text form.

use crate::text::{
    ascii_lower, hex, hex_digit, is_lower, lemma_hex_byte, lemma_hex_is_lower, lemma_hex_len,
    lemma_hex_split, lemma_lower_texts, lower_char, push_hex_byte,
};
use vstd::prelude::*;
use vstd::string::*;

verus! {

/// What is known of a Bluetooth address.
#[derive(Debug, Clone, Copy, PartialEq, Eq, Structural)]
pub enum AddressType {
    Public,
    RandomStatic,
    ResolvablePrivate,
    NonResolvablePrivate,
    Unknown,
}

/// The kind of a random address: its two topmost bits, of forty-eight, decide.
pub open spec fn random_address_type(address: nat) -> AddressType {
    let top: nat = (address / 0x4000_0000_0000) % 4;
    if top == 3 {
        AddressType::RandomStatic
    } else if top == 1 {
        AddressType::ResolvablePrivate
    } else if top == 0 {
        AddressType::NonResolvablePrivate
    } else {
        AddressType::Unknown
    }
}

/// Tells the kinds of random addresses apart.
pub fn classify_random_address(address: u64) -> (kind: AddressType)
    ensures
        kind == random_address_type(address as nat),
{
    assert((address >> 46) & 0b11 == (address / 0x4000_0000_0000) % 4) by (bit_vector);
    match (address >> 46) & 0b11 {
        0b11 => AddressType::RandomStatic,
        0b01 => AddressType::ResolvablePrivate,
        0b00 => AddressType::NonResolvablePrivate,
        _ => AddressType::Unknown,
    }
}

/// What follows the first eight digits of every UUID that Bluetooth assigns.
pub open spec fn base_uuid_tail() -> Seq<char> {
    "-0000-1000-8000-00805f9b34fb"@
}

/// The full form of a UUID of which Bluetooth assigned the first 32 bits.
pub open spec fn assigned_uuid(value: nat) -> Seq<char> {
    hex(value, 8, false) + base_uuid_tail()
}

/// Expands a 16-bit UUID to its full form.
pub fn bluetooth_uuid16(value: u16) -> (uuid: String)
    ensures
        uuid@ == assigned_uuid(value as nat),
{
    bluetooth_uuid32(value as u32)
}

/// Expands a 32-bit UUID to its full form.
pub fn bluetooth_uuid32(value: u32) -> (uuid: String)
    ensures
        uuid@ == assigned_uuid(value as nat),
{
    let mut uuid: String = String::new();
    push_hex_byte(&mut uuid, (value / 0x100_0000) as u8, false);
    push_hex_byte(&mut uuid, ((value / 0x1_0000) % 0x100) as u8, false);
    push_hex_byte(&mut uuid, ((value / 0x100) % 0x100) as u8, false);
    push_hex_byte(&mut uuid, (value % 0x100) as u8, false);
    proof {
        let v: nat = value as nat;
        lemma_hex_split(v, 6, false);
        lemma_hex_split(v / 256, 4, false);
        lemma_hex_split(v / 256 / 256, 2, false);
        assert(v / 256 / 256 / 256 == v / 0x100_0000);
        assert(v / 256 / 256 == v / 0x1_0000);
        assert(uuid@ =~= hex(v, 8, false)) by {
            lemma_hex_len(v / 0x100_0000, 2, false);
        }
    }
    uuid.append("-0000-1000-8000-00805f9b34fb");
    uuid
}

/// The number that a byte string stands for, the lowest byte first.
pub open spec fn le_value(bytes: Seq<u8>) -> nat
    decreases bytes.len(),
{
    if bytes.len() == 0 {
        0
    } else {
        bytes[0] as nat + 256 * le_value(bytes.drop_first())
    }
}

/// Thirty-two digits in the five groups of a UUID.
pub open spec fn hyphenated(digits: Seq<char>) -> Seq<char> {
    digits.subrange(0, 8) + seq!['-'] + digits.subrange(8, 12) + seq!['-'] + digits.subrange(
        12,
        16,
    ) + seq!['-'] + digits.subrange(16, 20) + seq!['-'] + digits.subrange(20, 32)
}

/// The text form of the UUID whose bytes come lowest first.
pub open spec fn le_uuid(bytes: Seq<u8>) -> Seq<char> {
    hyphenated(hex(le_value(bytes), 32, false))
}

/// The digits of the bytes, the last byte first.
spec fn reversed_hex(bytes: Seq<u8>) -> Seq<char>
    decreases bytes.len(),
{
    if bytes.len() == 0 {
        seq![]
    } else {
        reversed_hex(bytes.drop_first()) + hex(bytes[0] as nat, 2, false)
    }
}

proof fn lemma_reversed_hex_value(bytes: Seq<u8>)
    ensures
        reversed_hex(bytes) == hex(le_value(bytes), 2 * bytes.len(), false),
    decreases bytes.len(),
{
    if bytes.len() > 0 {
        let rest: Seq<u8> = bytes.drop_first();
        lemma_reversed_hex_value(rest);
        lemma_hex_split(le_value(bytes), 2 * rest.len(), false);
        assert(le_value(bytes) / 256 == le_value(rest));
        assert(le_value(bytes) % 256 == bytes[0] as nat);
    }
}

proof fn lemma_reversed_hex_concat(a: Seq<u8>, b: Seq<u8>)
    ensures
        reversed_hex(a + b) == reversed_hex(b) + reversed_hex(a),
    decreases a.len(),
{
    if a.len() == 0 {
        assert(a + b =~= b);
        assert(reversed_hex(b) + reversed_hex(a) =~= reversed_hex(b));
    } else {
        assert((a + b).drop_first() =~= a.drop_first() + b);
        lemma_reversed_hex_concat(a.drop_first(), b);
        assert(reversed_hex(a + b) =~= reversed_hex(b) + reversed_hex(a));
    }
}

fn reversed_hex_group(bytes: &[u8], from: usize, to: usize) -> (group: String)
    requires
        from <= to <= bytes@.len(),
    ensures
        group@ == reversed_hex(bytes@.subrange(from as int, to as int)),
{
    let mut group: String = String::new();
    let mut i: usize = to;
    while i > from
        invariant
            from <= i <= to <= bytes@.len(),
            group@ == reversed_hex(bytes@.subrange(i as int, to as int)),
        decreases i,
    {
        i -= 1;
        push_hex_byte(&mut group, bytes[i], false);
        assert(bytes@.subrange(i as int, to as int).drop_first() =~= bytes@.subrange(
            i + 1,
            to as int,
        ));
    }
    group
}

/// The text form of a UUID received as sixteen bytes, the lowest first.
pub fn uuid_from_le_bytes(bytes: &[u8]) -> (uuid: Option<String>)
    ensures
        uuid is Some <==> bytes@.len() == 16,
        uuid matches Some(text) ==> text@ == le_uuid(bytes@),
{
    if bytes.len() != 16 {
        return None;
    }
    let mut uuid: String = reversed_hex_group(bytes, 12, 16);
    uuid.append("-");
    uuid.append(reversed_hex_group(bytes, 10, 12).as_str());
    uuid.append("-");
    uuid.append(reversed_hex_group(bytes, 8, 10).as_str());
    uuid.append("-");
    uuid.append(reversed_hex_group(bytes, 6, 8).as_str());
    uuid.append("-");
    uuid.append(reversed_hex_group(bytes, 0, 6).as_str());
    proof {
        reveal_strlit("-");
        let b: Seq<u8> = bytes@;
        lemma_reversed_hex_value(b);
        assert(b =~= b.subrange(0, 6) + b.subrange(6, 16));
        assert(b.subrange(6, 16) =~= b.subrange(6, 8) + b.subrange(8, 16));
        assert(b.subrange(8, 16) =~= b.subrange(8, 10) + b.subrange(10, 16));
        assert(b.subrange(10, 16) =~= b.subrange(10, 12) + b.subrange(12, 16));
        lemma_reversed_hex_concat(b.subrange(0, 6), b.subrange(6, 16));
        lemma_reversed_hex_concat(b.subrange(6, 8), b.subrange(8, 16));
        lemma_reversed_hex_concat(b.subrange(8, 10), b.subrange(10, 16));
        lemma_reversed_hex_concat(b.subrange(10, 12), b.subrange(12, 16));
        lemma_reversed_hex_len(b.subrange(0, 6));
        lemma_reversed_hex_len(b.subrange(6, 8));
        lemma_reversed_hex_len(b.subrange(8, 10));
        lemma_reversed_hex_len(b.subrange(10, 12));
        lemma_reversed_hex_len(b.subrange(12, 16));
        assert(uuid@ =~= le_uuid(b));
    }
    Some(uuid)
}

proof fn lemma_reversed_hex_len(bytes: Seq<u8>)
    ensures
        reversed_hex(bytes).len() == 2 * bytes.len(),
{
    lemma_reversed_hex_value(bytes);
    lemma_hex_len(le_value(bytes), 2 * bytes.len(), false);
}

/// The octet of an address at a place, counted from the lowest.
pub open spec fn octet(address: nat, place: nat) -> nat
    decreases place,
{
    if place == 0 {
        address % 256
    } else {
        octet(address / 256, (place - 1) as nat)
    }
}

/// The two capital digits of one octet of an address.
pub open spec fn octet_text(address: nat, place: nat) -> Seq<char> {
    hex(octet(address, place), 2, true)
}

/// The six low octets of an address, the highest first, with colons between.
pub open spec fn address_text(address: nat) -> Seq<char> {
    octet_text(address, 5) + seq![':'] + octet_text(address, 4) + seq![':'] + octet_text(address, 3)
        + seq![':'] + octet_text(address, 2) + seq![':'] + octet_text(address, 1) + seq![':']
        + octet_text(address, 0)
}

/// The text form of a six-byte Bluetooth address.
pub fn format_address(address: u64) -> (text: String)
    ensures
        text@ == address_text(address as nat),
{
    let mut text: String = String::new();
    push_hex_byte(&mut text, ((address / 0x100_0000_0000) % 0x100) as u8, true);
    text.append(":");
    push_hex_byte(&mut text, ((address / 0x1_0000_0000) % 0x100) as u8, true);
    text.append(":");
    push_hex_byte(&mut text, ((address / 0x100_0000) % 0x100) as u8, true);
    text.append(":");
    push_hex_byte(&mut text, ((address / 0x1_0000) % 0x100) as u8, true);
    text.append(":");
    push_hex_byte(&mut text, ((address / 0x100) % 0x100) as u8, true);
    text.append(":");
    push_hex_byte(&mut text, (address % 0x100) as u8, true);
    proof {
        reveal_strlit(":");
        reveal_with_fuel(octet, 6);
        let a: nat = address as nat;
        assert(a / 256 / 256 == a / 0x1_0000);
        assert(a / 256 / 256 / 256 == a / 0x100_0000);
        assert(a / 256 / 256 / 256 / 256 == a / 0x1_0000_0000);
        assert(a / 256 / 256 / 256 / 256 / 256 == a / 0x100_0000_0000);
        assert(text@ =~= address_text(a));
    }
    text
}

/// The twelve low bytes that every UUID assigned by Bluetooth shares, the lowest first.
pub open spec fn base_uuid_low_bytes() -> Seq<u8> {
    seq![0xfb, 0x34, 0x9b, 0x5f, 0x80, 0x00, 0x00, 0x80, 0x00, 0x10, 0x00, 0x00]
}

proof fn lemma_base_uuid_digits()
    ensures
        reversed_hex(base_uuid_low_bytes()).len() == 24,
        ({
            let d: Seq<char> = reversed_hex(base_uuid_low_bytes());
            base_uuid_tail() == seq!['-'] + d.subrange(0, 4) + seq!['-'] + d.subrange(4, 8)
                + seq!['-'] + d.subrange(8, 12) + seq!['-'] + d.subrange(12, 24)
        }),
{
    reveal_strlit("-0000-1000-8000-00805f9b34fb");
    let b: Seq<u8> = base_uuid_low_bytes();
    let d: Seq<char> = reversed_hex(b);
    lemma_reversed_hex_len(b);
    lemma_reversed_hex_index(b);
    assert(base_uuid_tail() =~= seq!['-'] + d.subrange(0, 4) + seq!['-'] + d.subrange(4, 8)
        + seq!['-'] + d.subrange(8, 12) + seq!['-'] + d.subrange(12, 24));
}

proof fn lemma_reversed_hex_index(bytes: Seq<u8>)
    ensures
        reversed_hex(bytes).len() == 2 * bytes.len(),
        forall|i: int|
            0 <= i < bytes.len() ==> reversed_hex(bytes)[2 * (bytes.len() - 1 - i)] == hex_digit(
                (#[trigger] bytes[i] / 16) as nat,
                false,
            ),
        forall|i: int|
            0 <= i < bytes.len() ==> reversed_hex(bytes)[2 * (bytes.len() - 1 - i) + 1]
                == hex_digit((#[trigger] bytes[i] % 16) as nat, false),
    decreases bytes.len(),
{
    lemma_reversed_hex_len(bytes);
    if bytes.len() > 0 {
        let rest: Seq<u8> = bytes.drop_first();
        lemma_reversed_hex_index(rest);
        lemma_hex_byte(bytes[0], false);
        assert forall|i: int| 0 <= i < bytes.len() implies reversed_hex(bytes)[2 * (bytes.len() - 1
            - i)] == hex_digit((#[trigger] bytes[i] / 16) as nat, false) by {
            if i > 0 {
                assert(rest[i - 1] == bytes[i]);
            }
        }
        assert forall|i: int| 0 <= i < bytes.len() implies reversed_hex(bytes)[2 * (bytes.len() - 1
            - i) + 1] == hex_digit((#[trigger] bytes[i] % 16) as nat, false) by {
            if i > 0 {
                assert(rest[i - 1] == bytes[i]);
            }
        }
    }
}

/// The digits of sixteen bytes, the lowest first, are those of each byte, from the end.
pub proof fn lemma_le_digits(bytes: Seq<u8>)
    requires
        bytes.len() == 16,
    ensures
        hex(le_value(bytes), 32, false).len() == 32,
        forall|i: int|
            0 <= i < 16 ==> hex(le_value(bytes), 32, false)[2 * (15 - i)] == hex_digit(
                (#[trigger] bytes[i] / 16) as nat,
                false,
            ),
        forall|i: int|
            0 <= i < 16 ==> hex(le_value(bytes), 32, false)[2 * (15 - i) + 1] == hex_digit(
                (#[trigger] bytes[i] % 16) as nat,
                false,
            ),
{
    lemma_reversed_hex_value(bytes);
    lemma_reversed_hex_index(bytes);
}

/// A UUID of which Bluetooth assigned the first 32 bits reads the same whether it
/// was received in its short form or as all of its sixteen bytes.
pub proof fn law_short_and_full_uuids_agree(short: Seq<u8>)
    requires
        short.len() == 4,
    ensures
        le_uuid(base_uuid_low_bytes() + short) == assigned_uuid(le_value(short)),
{
    let base: Seq<u8> = base_uuid_low_bytes();
    lemma_base_uuid_digits();
    lemma_reversed_hex_concat(base, short);
    lemma_reversed_hex_value(base + short);
    lemma_reversed_hex_value(short);
    lemma_reversed_hex_len(short);
    let d: Seq<char> = reversed_hex(base);
    let all: Seq<char> = reversed_hex(base + short);
    assert(all.subrange(0, 8) =~= reversed_hex(short));
    assert(all.subrange(8, 12) =~= d.subrange(0, 4));
    assert(all.subrange(12, 16) =~= d.subrange(4, 8));
    assert(all.subrange(16, 20) =~= d.subrange(8, 12));
    assert(all.subrange(20, 32) =~= d.subrange(12, 24));
    assert(le_uuid(base + short) =~= assigned_uuid(le_value(short)));
}

/// UUIDs are written in small digits.
pub proof fn law_uuid_text_is_lower_case(value: nat, bytes: Seq<u8>)
    ensures
        is_lower(assigned_uuid(value)),
        is_lower(le_uuid(bytes)),
{
    reveal_strlit("-0000-1000-8000-00805f9b34fb");
    assert(is_lower(base_uuid_tail())) by {
        assert(ascii_lower(base_uuid_tail()) =~= base_uuid_tail());
    }
    lemma_hex_is_lower(value, 8);
    lemma_lower_texts(hex(value, 8, false), base_uuid_tail());
    let digits: Seq<char> = hex(le_value(bytes), 32, false);
    lemma_hex_is_lower(le_value(bytes), 32);
    lemma_hex_len(le_value(bytes), 32, false);
    assert forall|i: int| 0 <= i < 32 implies lower_char(#[trigger] digits[i]) == digits[i] by {
        assert(ascii_lower(digits)[i] == digits[i]);
    }
    assert(ascii_lower(hyphenated(digits)) =~= hyphenated(digits));
}

/// Two UUIDs have the same text only if they are the same.
pub proof fn law_uuid_text_is_injective(a: Seq<u8>, b: Seq<u8>)
    requires
        a.len() == 16,
        b.len() == 16,
        le_uuid(a) == le_uuid(b),
    ensures
        a == b,
{
    lemma_reversed_hex_value(a);
    lemma_reversed_hex_value(b);
    lemma_reversed_hex_index(a);
    lemma_reversed_hex_index(b);
    let x: Seq<char> = reversed_hex(a);
    let y: Seq<char> = reversed_hex(b);
    assert forall|i: int| 0 <= i < 32 implies x[i] == y[i] by {
        let place: int = if i < 8 {
            i
        } else if i < 12 {
            i + 1
        } else if i < 16 {
            i + 2
        } else if i < 20 {
            i + 3
        } else {
            i + 4
        };
        assert(hyphenated(x)[place] == x[i]);
        assert(hyphenated(y)[place] == y[i]);
    }
    assert forall|i: int| 0 <= i < 16 implies a[i] == b[i] by {
        assert(x[2 * (15 - i)] == hex_digit((a[i] / 16) as nat, false));
        assert(y[2 * (15 - i)] == hex_digit((b[i] / 16) as nat, false));
        assert(x[2 * (15 - i) + 1] == hex_digit((a[i] % 16) as nat, false));
        assert(y[2 * (15 - i) + 1] == hex_digit((b[i] % 16) as nat, false));
    }
    assert(a =~= b);
}

/// The number that the lowest octets of an address make.
spec fn low_octets(address: nat, count: nat) -> nat
    decreases count,
{
    if count == 0 {
        0
    } else {
        address % 256 + 256 * low_octets(address / 256, (count - 1) as nat)
    }
}

proof fn lemma_low_octets_decide(a: nat, b: nat, count: nat)
    ensures
        low_octets(a, count) == low_octets(b, count) <==> forall|place: nat|
            place < count ==> octet(a, place) == octet(b, place),
    decreases count,
{
    if count > 0 {
        let rest: nat = (count - 1) as nat;
        lemma_low_octets_decide(a / 256, b / 256, rest);
        if low_octets(a, count) == low_octets(b, count) {
            assert(a % 256 == b % 256);
            assert forall|place: nat| place < count implies octet(a, place) == octet(b, place) by {
                if place > 0 {
                    assert(octet(a / 256, (place - 1) as nat) == octet(
                        b / 256,
                        (place - 1) as nat,
                    ));
                }
            }
        }
        if forall|place: nat| place < count ==> octet(a, place) == octet(b, place) {
            assert(octet(a, 0) == octet(b, 0));
            let high_a: nat = a / 256;
            let high_b: nat = b / 256;
            assert forall|place: nat| place < rest implies octet(high_a, place) == octet(
                high_b,
                place,
            ) by {
                assert(octet(a, (place + 1) as nat) == octet(b, (place + 1) as nat));
            }
        }
    }
}

proof fn lemma_low_octets_value(address: nat)
    ensures
        low_octets(address, 6) == address % 0x1_0000_0000_0000,
{
    lemma_low_octets_step(address, 5, 0x100_0000_0000);
    lemma_low_octets_step(address / 256, 4, 0x1_0000_0000);
    lemma_low_octets_step(address / 256 / 256, 3, 0x100_0000);
    lemma_low_octets_step(address / 256 / 256 / 256, 2, 0x1_0000);
    lemma_low_octets_step(address / 256 / 256 / 256 / 256, 1, 0x100);
    lemma_low_octets_step(address / 256 / 256 / 256 / 256 / 256, 0, 1);
}

proof fn lemma_low_octets_step(address: nat, count: nat, modulus: nat)
    requires
        modulus > 0,
    ensures
        low_octets(address / 256, count) == (address / 256) % modulus ==> low_octets(
            address,
            count + 1,
        ) == address % (256 * modulus),
{
    vstd::arithmetic::div_mod::lemma_mod_breakdown(address as int, 256, modulus as int);
}

/// Two addresses have the same text exactly if they agree in their six low bytes.
pub proof fn law_address_text_identifies_low_bytes(a: nat, b: nat)
    ensures
        address_text(a) == address_text(b) <==> a % 0x1_0000_0000_0000 == b % 0x1_0000_0000_0000,
{
    lemma_low_octets_value(a);
    lemma_low_octets_value(b);
    lemma_low_octets_decide(a, b, 6);
    if address_text(a) == address_text(b) {
        assert forall|place: nat| place < 6 implies octet(a, place) == octet(b, place) by {
            lemma_octet_place(a, place);
            lemma_octet_place(b, place);
            lemma_octet_text_injective(a, b, place);
        }
    }
}

proof fn lemma_octet_text_injective(a: nat, b: nat, place: nat)
    requires
        octet_text(a, place) == octet_text(b, place),
    ensures
        octet(a, place) == octet(b, place),
{
    lemma_octet_bound(a, place);
    lemma_octet_bound(b, place);
    lemma_hex_byte(octet(a, place) as u8, true);
    lemma_hex_byte(octet(b, place) as u8, true);
    assert(octet_text(a, place)[0] == octet_text(b, place)[0]);
    assert(octet_text(a, place)[1] == octet_text(b, place)[1]);
}

proof fn lemma_octet_bound(address: nat, place: nat)
    ensures
        octet(address, place) < 256,
    decreases place,
{
    if place > 0 {
        lemma_octet_bound(address / 256, (place - 1) as nat);
    }
}

proof fn lemma_octet_place(address: nat, place: nat)
    requires
        place < 6,
    ensures
        address_text(address).subrange(15 - 3 * place, 17 - 3 * place) == octet_text(
            address,
            place,
        ),
{
    lemma_hex_len(octet(address, 0), 2, true);
    lemma_hex_len(octet(address, 1), 2, true);
    lemma_hex_len(octet(address, 2), 2, true);
    lemma_hex_len(octet(address, 3), 2, true);
    lemma_hex_len(octet(address, 4), 2, true);
    lemma_hex_len(octet(address, 5), 2, true);
    assert(address_text(address).subrange(15 - 3 * place, 17 - 3 * place) =~= octet_text(
        address,
        place,
    ));
}

} // verus!
