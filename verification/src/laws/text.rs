//! Laws of text: order, lower case, digits and messages.

use crate::error::{failure, Error};
use crate::text::{
    ascending, ascii_lower, bytes_less, digit_number, hex, hex_digit, is_hex_digit, is_lower,
    lemma_hex_len, lower_char, str_less, text_less,
};
use vstd::arithmetic::power::{lemma_pow0, lemma_pow1, lemma_pow_positive, pow};
use vstd::prelude::*;
use vstd::string::*;
use vstd::utf8::*;

verus! {

/// One byte string comes before another: they agree up to some place, and there the
/// first ends or has the smaller byte.
pub open spec fn comes_before(a: Seq<u8>, b: Seq<u8>) -> bool {
    exists|k: int| #[trigger] parts_at(a, b, k)
}

/// Two byte strings agree before a place, and at the place the first ends or has the
/// smaller byte.
pub open spec fn parts_at(a: Seq<u8>, b: Seq<u8>, k: int) -> bool {
    &&& 0 <= k <= a.len()
    &&& k < b.len()
    &&& forall|i: int| 0 <= i < k ==> a[i] == b[i]
    &&& k < a.len() ==> a[k] < b[k]
}

/// The order of byte strings is that of the first place at which they part.
pub proof fn law_first_difference_decides(a: Seq<u8>, b: Seq<u8>)
    ensures
        bytes_less(a, b) <==> comes_before(a, b),
    decreases a.len(),
{
    if b.len() == 0 {
    } else if a.len() == 0 || a[0] != b[0] {
        if bytes_less(a, b) {
            assert(parts_at(a, b, 0));
        }
        if comes_before(a, b) {
            let k: int = choose|k: int| #[trigger] parts_at(a, b, k);
            assert(k == 0);
        }
    } else {
        law_first_difference_decides(a.drop_first(), b.drop_first());
        if comes_before(a.drop_first(), b.drop_first()) {
            let k: int = choose|k: int| #[trigger] parts_at(a.drop_first(), b.drop_first(), k);
            assert forall|i: int| 0 <= i < k + 1 implies a[i] == b[i] by {
                if i > 0 {
                    assert(a.drop_first()[i - 1] == b.drop_first()[i - 1]);
                }
            }
            assert(parts_at(a, b, k + 1));
        }
        if comes_before(a, b) {
            let k: int = choose|k: int| #[trigger] parts_at(a, b, k);
            assert(k > 0);
            assert(parts_at(a.drop_first(), b.drop_first(), k - 1));
        }
    }
}

/// Strings are compared by their UTF-8 bytes, from the front.
pub proof fn law_str_less_compares_bytes(a: &str, b: &str, less: bool)
    requires
        call_ensures(str_less, (a, b), less),
    ensures
        less <==> comes_before(encode_utf8(a@), encode_utf8(b@)),
{
    law_first_difference_decides(encode_utf8(a@), encode_utf8(b@));
}

/// Of two texts in order the first comes before the second, byte by byte.
pub proof fn law_ascending_texts_come_in_order(list: Seq<Seq<char>>, i: int, j: int)
    requires
        ascending(list),
        0 <= i < j < list.len(),
    ensures
        comes_before(encode_utf8(list[i]), encode_utf8(list[j])),
        list[i] != list[j],
{
    assert(text_less(list[i], list[j]));
    law_first_difference_decides(encode_utf8(list[i]), encode_utf8(list[j]));
    crate::text::law_text_order(list[i], list[j], list[j]);
}

/// The second character is the first, or the small letter of the first, a capital.
pub open spec fn small_char(c: char, small: char) -> bool {
    if 65 <= c as u32 && c as u32 <= 90 {
        small as u32 == c as u32 + 32
    } else {
        small == c
    }
}

/// The second text is the first with its ASCII capitals made small, place by place.
pub open spec fn small_form(text: Seq<char>, small: Seq<char>) -> bool {
    &&& small.len() == text.len()
    &&& forall|i: int| 0 <= i < text.len() ==> small_char(text[i], #[trigger] small[i])
}

/// The characters are the same but for the case of an ASCII letter.
pub open spec fn same_letter(a: char, b: char) -> bool {
    ||| a == b
    ||| 65 <= a as u32 <= 90 && b as u32 == a as u32 + 32
    ||| 65 <= b as u32 <= 90 && a as u32 == b as u32 + 32
}

/// The texts are the same but for the case of ASCII letters.
pub open spec fn same_but_for_case(a: Seq<char>, b: Seq<char>) -> bool {
    &&& a.len() == b.len()
    &&& forall|i: int| 0 <= i < a.len() ==> same_letter(#[trigger] a[i], b[i])
}

proof fn lemma_small_char(c: char, small: char)
    requires
        small_char(c, small),
    ensures
        small == lower_char(c),
{
}

/// Lower-casing works place by place, and what it makes is the only text in small form.
pub proof fn law_lower_case_is_the_small_form(text: Seq<char>, small: Seq<char>)
    ensures
        small_form(text, small) <==> small == ascii_lower(text),
        is_lower(text) <==> forall|i: int|
            0 <= i < text.len() ==> !(65 <= (#[trigger] text[i]) as u32 <= 90),
{
    let lower: Seq<char> = ascii_lower(text);
    assert(forall|i: int| 0 <= i < text.len() ==> #[trigger] lower[i] == lower_char(text[i]));
    if small_form(text, small) {
        assert forall|i: int| 0 <= i < text.len() implies small[i] == lower[i] by {
            assert(small_char(text[i], small[i]));
            lemma_small_char(text[i], small[i]);
        }
        assert(small =~= lower);
    }
    if is_lower(text) {
        assert forall|i: int| 0 <= i < text.len() implies !(65 <= (
        #[trigger] text[i]) as u32 <= 90) by {
            assert(lower[i] == text[i]);
        }
    }
    if forall|i: int| 0 <= i < text.len() ==> !(65 <= (#[trigger] text[i]) as u32 <= 90) {
        assert(lower =~= text);
    }
}

/// Two texts have one lower-case form exactly if they differ in the case of letters
/// only.
pub proof fn law_lower_case_forgets_case_only(a: Seq<char>, b: Seq<char>)
    ensures
        ascii_lower(a) == ascii_lower(b) <==> same_but_for_case(a, b),
{
    let x: Seq<char> = ascii_lower(a);
    let y: Seq<char> = ascii_lower(b);
    if x == y {
        assert(a.len() == x.len() && b.len() == y.len());
        assert forall|i: int| 0 <= i < a.len() implies same_letter(#[trigger] a[i], b[i]) by {
            assert(x[i] == lower_char(a[i]));
            assert(y[i] == lower_char(b[i]));
            assert(a[i] as u32 == b[i] as u32 ==> a[i] == b[i]);
        }
    }
    if same_but_for_case(a, b) {
        assert forall|i: int| 0 <= i < a.len() implies x[i] == y[i] by {
            assert(same_letter(a[i], b[i]));
            assert(x[i] as u32 == y[i] as u32);
        }
        assert(x =~= y);
    }
}

/// The hexadecimal digits are these.
pub proof fn law_hex_digits(digit: nat)
    requires
        digit < 16,
    ensures
        hex_digit(digit, false) == seq![
            '0', '1', '2', '3', '4', '5', '6', '7', '8', '9', 'a', 'b', 'c', 'd', 'e', 'f',
        ][digit as int],
        hex_digit(digit, true) == seq![
            '0', '1', '2', '3', '4', '5', '6', '7', '8', '9', 'A', 'B', 'C', 'D', 'E', 'F',
        ][digit as int],
{
}

/// The character is a small hexadecimal digit, or a capital one, for a number.
pub open spec fn stands_for(c: char, number: nat, upper: bool) -> bool {
    ||| 48 <= c as u32 <= 57 && number == c as u32 - 48
    ||| !upper && 97 <= c as u32 <= 102 && number == c as u32 - 97 + 10
    ||| upper && 65 <= c as u32 <= 70 && number == c as u32 - 65 + 10
}

/// The text is the number written in hexadecimal digits, place by place: counted from
/// the end, the digit at a place stands for the number of times that the place's power
/// of sixteen goes into the number, less what the places before it take.
pub open spec fn is_written(text: Seq<char>, number: nat, upper: bool) -> bool {
    forall|k: int|
        0 <= k < text.len() ==> stands_for(
            #[trigger] text[text.len() - 1 - k],
            ((number as int / pow(16, k as nat)) % 16) as nat,
            upper,
        )
}

/// A number written in hexadecimal digits has the digit of each place there.
pub proof fn law_hex_is_written_by_place(value: nat, width: nat, upper: bool)
    ensures
        hex(value, width, upper).len() == width,
        is_written(hex(value, width, upper), value, upper),
    decreases width,
{
    lemma_hex_len(value, width, upper);
    if width > 0 {
        let rest: nat = value / 16;
        let less: nat = (width - 1) as nat;
        let text: Seq<char> = hex(value, width, upper);
        let front: Seq<char> = hex(rest, less, upper);
        law_hex_is_written_by_place(rest, less, upper);
        assert forall|k: int| 0 <= k < width implies stands_for(
            #[trigger] text[width - 1 - k],
            ((value as int / pow(16, k as nat)) % 16) as nat,
            upper,
        ) by {
            if k == 0 {
                lemma_pow0(16);
                assert(text[width - 1] == hex_digit(value % 16, upper));
            } else {
                assert(text[width - 1 - k] == front[less - 1 - (k - 1)]);
                lemma_pow_positive(16, (k - 1) as nat);
                lemma_next_place(value as int, (k - 1) as nat);
            }
        }
    }
}

proof fn lemma_next_place(value: int, k: nat)
    requires
        value >= 0,
    ensures
        value / pow(16, k + 1) == (value / 16) / pow(16, k),
{
    lemma_pow_positive(16, k);
    vstd::arithmetic::power::lemma_pow_adds(16, 1, k);
    lemma_pow1(16);
    vstd::arithmetic::div_mod::lemma_div_denominator(value, 16, pow(16, k));
}

/// A digit stands for what it is read as.
pub proof fn law_digits_are_read_as_they_stand(c: char)
    requires
        is_hex_digit(c),
    ensures
        stands_for(c, digit_number(c), false) || stands_for(c, digit_number(c), true),
        digit_number(c) < 16,
{
}

/// What failed and why are joined by a colon and a space, and nothing is lost.
pub proof fn law_failures_tell_what_and_why(context: &str, cause: &str, text: String)
    requires
        call_ensures(failure, (context, cause), text),
    ensures
        text@.len() == context@.len() + 2 + cause@.len(),
        forall|i: int| 0 <= i < context@.len() ==> text@[i] == #[trigger] context@[i],
        text@[context@.len() as int] == ':',
        text@[1 + context@.len() as int] == ' ',
        forall|i: int|
            0 <= i < cause@.len() ==> text@[context@.len() + 2 + i] == #[trigger] cause@[i],
{
    reveal_strlit(": ");
}

/// An error shows the message that it was made with.
pub proof fn law_errors_show_their_message(message: &str, error: Error, shown: &str)
    requires
        call_ensures(Error::new::<&str>, (message,), error),
        call_ensures(Error::message, (&error,), shown),
    ensures
        shown@ == message@,
{
}

/// An error that takes over a string shows that string.
pub proof fn law_errors_show_their_string(message: String, error: Error, shown: &str)
    requires
        call_ensures(Error::new::<String>, (message,), error),
        call_ensures(Error::message, (&error,), shown),
    ensures
        shown@ == message@,
{
}

} // verus!
