//! Text: the order of strings, ASCII lower case and hexadecimal digits.

use vstd::prelude::*;
use vstd::string::*;
use vstd::utf8::*;

verus! {

/// Byte strings in lexicographic order: the first byte that differs decides,
/// and a proper prefix comes before what it is a prefix of.
pub open spec fn bytes_less(a: Seq<u8>, b: Seq<u8>) -> bool
    decreases a.len(),
{
    if b.len() == 0 {
        false
    } else if a.len() == 0 {
        true
    } else if a[0] != b[0] {
        a[0] < b[0]
    } else {
        bytes_less(a.drop_first(), b.drop_first())
    }
}

/// The order of strings: that of their UTF-8 bytes.
pub open spec fn text_less(a: Seq<char>, b: Seq<char>) -> bool {
    bytes_less(encode_utf8(a), encode_utf8(b))
}

/// The strings come in strictly ascending order, so none occurs twice.
pub open spec fn ascending(list: Seq<Seq<char>>) -> bool {
    forall|i: int, j: int| 0 <= i < j < list.len() ==> text_less(list[i], list[j])
}

proof fn lemma_bytes_less_irreflexive(a: Seq<u8>)
    ensures
        !bytes_less(a, a),
    decreases a.len(),
{
    if a.len() > 0 {
        lemma_bytes_less_irreflexive(a.drop_first());
    }
}

proof fn lemma_bytes_less_transitive(a: Seq<u8>, b: Seq<u8>, c: Seq<u8>)
    requires
        bytes_less(a, b),
        bytes_less(b, c),
    ensures
        bytes_less(a, c),
    decreases a.len(),
{
    if a.len() > 0 && a[0] == b[0] && b[0] == c[0] {
        lemma_bytes_less_transitive(a.drop_first(), b.drop_first(), c.drop_first());
    }
}

proof fn lemma_bytes_less_total(a: Seq<u8>, b: Seq<u8>)
    ensures
        a == b || bytes_less(a, b) || bytes_less(b, a),
    decreases a.len(),
{
    if a.len() > 0 && b.len() > 0 && a[0] == b[0] {
        lemma_bytes_less_total(a.drop_first(), b.drop_first());
        if a.drop_first() == b.drop_first() {
            assert(a =~= seq![a[0]] + a.drop_first());
            assert(b =~= seq![b[0]] + b.drop_first());
        }
    } else if a.len() == 0 && b.len() == 0 {
        assert(a =~= b);
    }
}

/// The order of strings is a strict total order: no string comes before itself,
/// the order is transitive, and of two different strings one comes first.
pub proof fn law_text_order(a: Seq<char>, b: Seq<char>, c: Seq<char>)
    ensures
        !text_less(a, a),
        text_less(a, b) && text_less(b, c) ==> text_less(a, c),
        a != b ==> text_less(a, b) || text_less(b, a),
{
    lemma_bytes_less_irreflexive(encode_utf8(a));
    if text_less(a, b) && text_less(b, c) {
        lemma_bytes_less_transitive(encode_utf8(a), encode_utf8(b), encode_utf8(c));
    }
    lemma_bytes_less_total(encode_utf8(a), encode_utf8(b));
    encode_utf8_decode_utf8(a);
    encode_utf8_decode_utf8(b);
}

/// Whether `a` comes strictly before `b`.
pub fn str_less(a: &str, b: &str) -> (less: bool)
    ensures
        less == text_less(a@, b@),
{
    let x: &[u8] = a.as_bytes();
    let y: &[u8] = b.as_bytes();
    let mut i: usize = 0;
    assert(x@.skip(0) =~= x@);
    assert(y@.skip(0) =~= y@);
    while i < x.len() && i < y.len()
        invariant
            x@ == encode_utf8(a@),
            y@ == encode_utf8(b@),
            i <= x@.len(),
            i <= y@.len(),
            bytes_less(x@, y@) == bytes_less(x@.skip(i as int), y@.skip(i as int)),
        decreases x@.len() - i,
    {
        if x[i] != y[i] {
            return x[i] < y[i];
        }
        assert(x@.skip(i as int).drop_first() =~= x@.skip(i + 1));
        assert(y@.skip(i as int).drop_first() =~= y@.skip(i + 1));
        i += 1;
    }
    i < y.len()
}

/// An ASCII capital letter becomes its small letter; any other character stays.
pub open spec fn lower_char(c: char) -> char {
    if 'A' <= c <= 'Z' {
        ((c as u32) + 32) as char
    } else {
        c
    }
}

/// The text with each ASCII capital letter replaced by its small letter.
pub open spec fn ascii_lower(text: Seq<char>) -> Seq<char> {
    text.map_values(|c: char| lower_char(c))
}

/// `str::to_ascii_lowercase` maps each character to its ASCII lower case
/// equivalent and leaves the characters outside `A` to `Z` as they are.
pub assume_specification[ str::to_ascii_lowercase ](s: &str) -> (lower: String)
    ensures
        lower@ == ascii_lower(s@),
;

/// Lower-casing text that is already lower-cased changes nothing.
pub proof fn law_ascii_lower_idempotent(text: Seq<char>)
    ensures
        ascii_lower(ascii_lower(text)) == ascii_lower(text),
{
    assert(ascii_lower(ascii_lower(text)) =~= ascii_lower(text));
}

/// The text has no ASCII capital letter.
pub open spec fn is_lower(text: Seq<char>) -> bool {
    ascii_lower(text) == text
}

/// Text that was lower-cased has no capital letter, nor has a text made of two without.
pub proof fn lemma_lower_texts(a: Seq<char>, b: Seq<char>)
    ensures
        is_lower(ascii_lower(a)),
        is_lower(a) && is_lower(b) ==> is_lower(a + b),
{
    law_ascii_lower_idempotent(a);
    assert(ascii_lower(a + b) =~= ascii_lower(a) + ascii_lower(b));
}

/// Each text of a list in lower case.
pub open spec fn lower_all(list: Seq<Seq<char>>) -> Seq<Seq<char>> {
    list.map_values(|text: Seq<char>| ascii_lower(text))
}

/// Each string of a list in lower case.
pub(crate) fn to_lower_all(list: &Vec<String>) -> (lower: Vec<String>)
    ensures
        lower.deep_view() == lower_all(list.deep_view()),
{
    let mut lower: Vec<String> = Vec::new();
    let mut i: usize = 0;
    while i < list.len()
        invariant
            i <= list@.len(),
            lower@.len() == i,
            forall|j: int| 0 <= j < i ==> (#[trigger] lower@[j])@ == ascii_lower(list@[j]@),
        decreases list@.len() - i,
    {
        lower.push(list[i].as_str().to_ascii_lowercase());
        i += 1;
    }
    assert(lower.deep_view() =~= lower_all(list.deep_view()));
    lower
}

/// The hexadecimal digit of a number below sixteen.
pub open spec fn hex_digit(digit: nat, upper: bool) -> char {
    if digit < 10 {
        (('0' as u32) + digit) as char
    } else if upper {
        (('A' as u32) + digit - 10) as char
    } else {
        (('a' as u32) + digit - 10) as char
    }
}

/// The last `width` hexadecimal digits of a number, zeros in front where it is
/// shorter.
pub open spec fn hex(value: nat, width: nat, upper: bool) -> Seq<char>
    decreases width,
{
    if width == 0 {
        seq![]
    } else {
        hex(value / 16, (width - 1) as nat, upper).push(hex_digit(value % 16, upper))
    }
}

/// A hexadecimal digit, capital or small.
pub open spec fn is_hex_digit(c: char) -> bool {
    '0' <= c <= '9' || 'a' <= c <= 'f' || 'A' <= c <= 'F'
}

/// The text is made of hexadecimal digits.
pub open spec fn is_hex_text(text: Seq<char>) -> bool {
    forall|i: int| 0 <= i < text.len() ==> is_hex_digit(#[trigger] text[i])
}

/// The number below sixteen that a hexadecimal digit stands for.
pub open spec fn digit_number(c: char) -> nat {
    if '0' <= c <= '9' {
        (c as u32 - '0' as u32) as nat
    } else if 'a' <= c <= 'f' {
        (c as u32 - 'a' as u32 + 10) as nat
    } else {
        (c as u32 - 'A' as u32 + 10) as nat
    }
}

/// The number that hexadecimal digits read as, the highest digit first.
pub open spec fn hex_number(text: Seq<char>) -> nat
    decreases text.len(),
{
    if text.len() == 0 {
        0
    } else {
        16 * hex_number(text.drop_last()) + digit_number(text.last())
    }
}

/// A number is written with as many digits as asked for.
pub proof fn lemma_hex_len(value: nat, width: nat, upper: bool)
    ensures
        hex(value, width, upper).len() == width,
    decreases width,
{
    if width > 0 {
        lemma_hex_len(value / 16, (width - 1) as nat, upper);
    }
}

/// Small hexadecimal digits have no capital letter among them.
pub proof fn lemma_hex_is_lower(value: nat, width: nat)
    ensures
        is_lower(hex(value, width, false)),
    decreases width,
{
    if width > 0 {
        let front: Seq<char> = hex(value / 16, (width - 1) as nat, false);
        let digit: char = hex_digit(value % 16, false);
        lemma_hex_is_lower(value / 16, (width - 1) as nat);
        assert(lower_char(digit) == digit);
        assert(ascii_lower(front.push(digit)) =~= ascii_lower(front).push(lower_char(digit)));
    } else {
        assert(ascii_lower(hex(value, 0, false)) =~= hex(value, 0, false));
    }
}

/// The two digits of one byte.
pub proof fn lemma_hex_byte(byte: u8, upper: bool)
    ensures
        hex(byte as nat, 2, upper) == seq![
            hex_digit((byte / 16) as nat, upper),
            hex_digit((byte % 16) as nat, upper),
        ],
{
    reveal_with_fuel(hex, 3);
    assert(hex(byte as nat, 2, upper) =~= seq![
        hex_digit((byte / 16) as nat, upper),
        hex_digit((byte % 16) as nat, upper),
    ]);
}

/// The digits of a number are those of its upper part, then the two of its lowest byte.
pub proof fn lemma_hex_split(value: nat, width: nat, upper: bool)
    ensures
        hex(value, width + 2, upper) == hex(value / 256, width, upper) + hex(
            value % 256,
            2,
            upper,
        ),
{
    reveal_with_fuel(hex, 3);
    assert((value / 16) / 16 == value / 256);
    assert((value % 256) % 16 == value % 16);
    assert((value % 256) / 16 % 16 == (value / 16) % 16);
    assert(hex(value, width + 2, upper) =~= hex(value / 256, width, upper) + hex(
        value % 256,
        2,
        upper,
    ));
}

fn lower_digit(digit: u8) -> (text: &'static str)
    requires
        digit < 16,
    ensures
        text@ == seq![hex_digit(digit as nat, false)],
{
    proof {
        reveal_strlit("0");
        reveal_strlit("1");
        reveal_strlit("2");
        reveal_strlit("3");
        reveal_strlit("4");
        reveal_strlit("5");
        reveal_strlit("6");
        reveal_strlit("7");
        reveal_strlit("8");
        reveal_strlit("9");
        reveal_strlit("a");
        reveal_strlit("b");
        reveal_strlit("c");
        reveal_strlit("d");
        reveal_strlit("e");
        reveal_strlit("f");
    }
    match digit {
        0 => "0",
        1 => "1",
        2 => "2",
        3 => "3",
        4 => "4",
        5 => "5",
        6 => "6",
        7 => "7",
        8 => "8",
        9 => "9",
        10 => "a",
        11 => "b",
        12 => "c",
        13 => "d",
        14 => "e",
        _ => "f",
    }
}

fn upper_digit(digit: u8) -> (text: &'static str)
    requires
        digit < 16,
    ensures
        text@ == seq![hex_digit(digit as nat, true)],
{
    proof {
        reveal_strlit("A");
        reveal_strlit("B");
        reveal_strlit("C");
        reveal_strlit("D");
        reveal_strlit("E");
        reveal_strlit("F");
    }
    match digit {
        10 => "A",
        11 => "B",
        12 => "C",
        13 => "D",
        14 => "E",
        15 => "F",
        _ => lower_digit(digit),
    }
}

/// Appends the two hexadecimal digits of a byte.
pub(crate) fn push_hex_byte(out: &mut String, byte: u8, upper: bool)
    ensures
        final(out)@ == old(out)@ + hex(byte as nat, 2, upper),
{
    proof {
        lemma_hex_byte(byte, upper);
    }
    if upper {
        out.append(upper_digit(byte / 16));
        out.append(upper_digit(byte % 16));
    } else {
        out.append(lower_digit(byte / 16));
        out.append(lower_digit(byte % 16));
    }
    assert(out@ =~= old(out)@ + hex(byte as nat, 2, upper));
}

/// `head` followed by `tail`.
pub(crate) fn join(head: &str, tail: &str) -> (text: String)
    ensures
        text@ == head@ + tail@,
{
    let mut text: String = head.to_owned();
    text.append(tail);
    text
}

} // verus!
