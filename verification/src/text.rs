//! Rendering of the numbers and options that appear in reports and messages.
//!
//! Each `push_*` function appends to a string under construction; the spec
//! function of the same shape says which characters it appends.

use vstd::prelude::*;
use vstd::string::*;

verus! {

/// The character for one digit below 16, lower case.
pub open spec fn digit_char(digit: nat) -> char {
    if digit < 10 {
        (48 + digit) as char
    } else {
        (87 + digit) as char
    }
}

/// A number in the given base, most significant digit first, no leading zero.
pub open spec fn digits(number: nat, base: nat) -> Seq<char>
    decreases number,
{
    if base < 2 || number < base {
        seq![digit_char(number)]
    } else {
        proof {
            vstd::arithmetic::div_mod::lemma_div_decreases(number as int, base as int);
        }
        digits(number / base, base).push(digit_char(number % base))
    }
}

/// A number in decimal, as `{}` renders it.
pub open spec fn decimal(number: nat) -> Seq<char> {
    digits(number, 10)
}

/// A number in hexadecimal with its prefix, as `{:#x}` renders it.
pub open spec fn hexadecimal(number: nat) -> Seq<char> {
    "0x"@ + digits(number, 16)
}

/// A truth value, as `{}` renders it.
pub open spec fn boolean(value: bool) -> Seq<char> {
    if value {
        "true"@
    } else {
        "false"@
    }
}

/// An optional number, as `{:?}` renders it.
pub open spec fn optional(value: Option<u64>) -> Seq<char> {
    match value {
        Some(number) => "Some("@ + decimal(number as nat) + ")"@,
        None => "None"@,
    }
}

/// Texts separated by `separator`.
pub open spec fn joined(parts: Seq<Seq<char>>, separator: Seq<char>) -> Seq<char>
    decreases parts.len(),
{
    if parts.len() == 0 {
        Seq::empty()
    } else if parts.len() == 1 {
        parts[0]
    } else {
        joined(parts.drop_last(), separator) + separator + parts.last()
    }
}

/// A set of small numbers listed in order, as `{:?}` renders an ordered set.
pub open spec fn byte_set(list: Seq<u8>) -> Seq<char> {
    "{"@ + joined(list.map_values(|number: u8| decimal(number as nat)), ", "@) + "}"@
}

/// The closing note of every message: the seed that replays the run.
pub open spec fn seed_note(seed: u64) -> Seq<char> {
    " (seed="@ + hexadecimal(seed as nat) + ")"@
}

/// The characters of a list of strings.
pub open spec fn texts(strings: Seq<String>) -> Seq<Seq<char>> {
    strings.map_values(|string: String| string@)
}

fn digit_text(digit: u128) -> (text: &'static str)
    requires
        digit < 16,
    ensures
        text@ == seq![digit_char(digit as nat)],
{
    proof {
        reveal_strlit("0");
        reveal_strlit("1");
        reveal_strlit("2");
        reveal_strlit("3");
        reveal_strlit("4");
        reveal_strlit("5");
        reveal_strlit("6");
        reveal_strlit("7");
        reveal_strlit("8");
        reveal_strlit("9");
        reveal_strlit("a");
        reveal_strlit("b");
        reveal_strlit("c");
        reveal_strlit("d");
        reveal_strlit("e");
        reveal_strlit("f");
    }
    let text = match digit {
        0 => "0",
        1 => "1",
        2 => "2",
        3 => "3",
        4 => "4",
        5 => "5",
        6 => "6",
        7 => "7",
        8 => "8",
        9 => "9",
        10 => "a",
        11 => "b",
        12 => "c",
        13 => "d",
        14 => "e",
        _ => "f",
    };
    assert(text@ =~= seq![digit_char(digit as nat)]);
    text
}

fn push_digits(out: &mut String, number: u128, base: u128)
    requires
        2 <= base <= 16,
    ensures
        final(out)@ == old(out)@ + digits(number as nat, base as nat),
    decreases number,
{
    if number >= base {
        proof {
            vstd::arithmetic::div_mod::lemma_div_decreases(number as int, base as int);
        }
        push_digits(out, number / base, base);
    }
    proof {
        vstd::arithmetic::div_mod::lemma_mod_bound(number as int, base as int);
        if number < base {
            vstd::arithmetic::div_mod::lemma_small_mod(number as nat, base as nat);
        }
    }
    out.append(digit_text(number % base));
    assert(out@ =~= old(out)@ + digits(number as nat, base as nat));
}

/// Appends `number` in decimal.
pub fn push_decimal(out: &mut String, number: u128)
    ensures
        final(out)@ == old(out)@ + decimal(number as nat),
{
    push_digits(out, number, 10);
}

/// Appends `number` in hexadecimal, prefixed with `0x`.
pub fn push_hexadecimal(out: &mut String, number: u128)
    ensures
        final(out)@ == old(out)@ + hexadecimal(number as nat),
{
    out.append("0x");
    push_digits(out, number, 16);
    assert(out@ =~= old(out)@ + hexadecimal(number as nat));
}

/// Appends `true` or `false`.
pub fn push_boolean(out: &mut String, value: bool)
    ensures
        final(out)@ == old(out)@ + boolean(value),
{
    if value {
        out.append("true");
    } else {
        out.append("false");
    }
}

/// Appends `Some(n)` or `None`.
pub fn push_optional(out: &mut String, value: Option<u64>)
    ensures
        final(out)@ == old(out)@ + optional(value),
{
    match value {
        Some(number) => {
            out.append("Some(");
            push_decimal(out, number as u128);
            out.append(")");
            assert(out@ =~= old(out)@ + optional(value));
        },
        None => {
            out.append("None");
        },
    }
}

/// Appends a listed set, `{a, b, c}`.
pub fn push_byte_set(out: &mut String, list: &[u8])
    ensures
        final(out)@ == old(out)@ + byte_set(list@),
{
    out.append("{");
    let ghost start = out@;
    let ghost parts = list@.map_values(|number: u8| decimal(number as nat));
    let mut i: usize = 0;
    assert(parts.take(0) =~= Seq::empty());
    assert(out@ =~= start + joined(parts.take(0), ", "@));
    while i < list.len()
        invariant
            i <= list.len(),
            parts == list@.map_values(|number: u8| decimal(number as nat)),
            out@ == start + joined(parts.take(i as int), ", "@),
        decreases list.len() - i,
    {
        if i > 0 {
            out.append(", ");
        }
        push_decimal(out, list[i] as u128);
        proof {
            assert(parts.take(i + 1).drop_last() =~= parts.take(i as int));
            assert(out@ =~= start + joined(parts.take(i + 1), ", "@));
        }
        i = i + 1;
    }
    assert(parts.take(i as int) =~= parts);
    out.append("}");
    assert(out@ =~= old(out)@ + byte_set(list@));
}

/// Appends strings separated by `separator`.
pub fn push_joined(out: &mut String, list: &[String], separator: &str)
    ensures
        final(out)@ == old(out)@ + joined(texts(list@), separator@),
{
    let ghost start = out@;
    let ghost parts = texts(list@);
    let mut i: usize = 0;
    assert(parts.take(0) =~= Seq::empty());
    assert(out@ =~= start + joined(parts.take(0), separator@));
    while i < list.len()
        invariant
            i <= list.len(),
            parts == texts(list@),
            out@ == start + joined(parts.take(i as int), separator@),
        decreases list.len() - i,
    {
        if i > 0 {
            out.append(separator);
        }
        out.append(list[i].as_str());
        proof {
            assert(parts.take(i + 1).drop_last() =~= parts.take(i as int));
            assert(out@ =~= start + joined(parts.take(i + 1), separator@));
        }
        i = i + 1;
    }
    assert(parts.take(i as int) =~= parts);
}

/// Appends the seed note.
pub fn push_seed_note(out: &mut String, seed: u64)
    ensures
        final(out)@ == old(out)@ + seed_note(seed),
{
    out.append(" (seed=");
    push_hexadecimal(out, seed as u128);
    out.append(")");
    assert(out@ =~= old(out)@ + seed_note(seed));
}

/// The number a digit stands for.
pub open spec fn digit_value(digit: char) -> int {
    if '0' <= digit <= '9' {
        digit as int - '0' as int
    } else {
        digit as int - 'a' as int + 10
    }
}

/// The number a numeral denotes.
pub open spec fn number_of(numeral: Seq<char>, base: int) -> int
    decreases numeral.len(),
{
    if numeral.len() == 0 {
        0
    } else {
        number_of(numeral.drop_last(), base) * base + digit_value(numeral.last())
    }
}

/// A rendered number reads back as itself, is made of digits below the base, and
/// has no leading zero.
pub proof fn numerals_read_back(number: nat, base: nat)
    requires
        2 <= base <= 16,
    ensures
        number_of(digits(number, base), base as int) == number,
        digits(number, base).len() >= 1,
        digits(number, base).len() > 1 ==> digits(number, base)[0] != '0',
        forall|i: int|
            0 <= i < digits(number, base).len() ==> 0 <= digit_value(
                #[trigger] digits(number, base)[i],
            ) < base,
    decreases number,
{
    if number < base {
        let numeral = digits(number, base);
        assert(numeral.drop_last() =~= Seq::empty());
        reveal_with_fuel(number_of, 2);
        assert(0 * (base as int) == 0);
    } else {
        vstd::arithmetic::div_mod::lemma_div_decreases(number as int, base as int);
        vstd::arithmetic::div_mod::lemma_fundamental_div_mod(number as int, base as int);
        vstd::arithmetic::div_mod::lemma_mod_bound(number as int, base as int);
        vstd::arithmetic::mul::lemma_mul_is_commutative(
            base as int,
            (number / base) as int,
        );
        numerals_read_back(number / base, base);
        let leading = digits(number / base, base);
        let numeral = digits(number, base);
        assert(numeral.drop_last() =~= leading);
        vstd::arithmetic::div_mod::lemma_div_non_zero(number as int, base as int);
        if leading.len() == 1 {
            first_digit_is_not_zero(number / base, base);
        }
        assert(numeral[0] == leading[0]);
    }
}

proof fn first_digit_is_not_zero(number: nat, base: nat)
    requires
        2 <= base <= 16,
        number > 0,
    ensures
        digits(number, base)[0] != '0',
    decreases number,
{
    if number >= base {
        vstd::arithmetic::div_mod::lemma_div_decreases(number as int, base as int);
        vstd::arithmetic::div_mod::lemma_div_non_zero(number as int, base as int);
        first_digit_is_not_zero(number / base, base);
    }
}

/// Decimal and hexadecimal renderings read back as the number rendered.
pub proof fn renderings_read_back(number: nat)
    ensures
        number_of(decimal(number), 10) == number,
        hexadecimal(number).len() >= 3,
        hexadecimal(number)[0] == '0',
        hexadecimal(number)[1] == 'x',
        number_of(hexadecimal(number).skip(2), 16) == number,
{
    numerals_read_back(number, 10);
    numerals_read_back(number, 16);
    reveal_strlit("0x");
    assert(hexadecimal(number).skip(2) =~= digits(number, 16));
}

/// Two numbers never render alike.
pub proof fn renderings_tell_numbers_apart(left: nat, right: nat)
    requires
        left != right,
    ensures
        decimal(left) != decimal(right),
        hexadecimal(left) != hexadecimal(right),
{
    renderings_read_back(left);
    renderings_read_back(right);
}

/// Joining is concatenation: nothing for no part, a single part as it is, and a
/// separator between any two stretches of parts.
pub proof fn joining_concatenates(
    left: Seq<Seq<char>>,
    right: Seq<Seq<char>>,
    part: Seq<char>,
    separator: Seq<char>,
)
    ensures
        joined(Seq::empty(), separator) == Seq::<char>::empty(),
        joined(seq![part], separator) == part,
        left.len() > 0 && right.len() > 0 ==> joined(left + right, separator) == joined(
            left,
            separator,
        ) + separator + joined(right, separator),
    decreases right.len(),
{
    if left.len() > 0 && right.len() > 0 {
        let shorter = right.drop_last();
        assert((left + right).drop_last() =~= left + shorter);
        if shorter.len() > 0 {
            joining_concatenates(left, shorter, part, separator);
            assert(joined(left + right, separator) =~= joined(left, separator) + separator + joined(
                right,
                separator,
            ));
        } else {
            assert(left + shorter =~= left);
            assert(right =~= seq![right[0]]);
        }
    }
}

/// A text holds a part somewhere.
pub open spec fn mentions(text: Seq<char>, part: Seq<char>) -> bool {
    exists|front: Seq<char>, back: Seq<char>| text == #[trigger] (front + part + back)
}

/// A text mentions itself.
pub broadcast proof fn text_mentions_itself(text: Seq<char>)
    ensures
        #[trigger] mentions(text, text),
{
    assert(text =~= Seq::<char>::empty() + text + Seq::<char>::empty());
}

/// What either half of a text mentions, the whole mentions.
pub broadcast proof fn halves_are_mentioned(left: Seq<char>, right: Seq<char>, part: Seq<char>)
    ensures
        mentions(left, part) || mentions(right, part) ==> #[trigger] mentions(left + right, part),
{
    if mentions(left, part) {
        let (front, back) = choose|front: Seq<char>, back: Seq<char>|
            left == #[trigger] (front + part + back);
        assert(left + right =~= front + part + (back + right));
    } else if mentions(right, part) {
        let (front, back) = choose|front: Seq<char>, back: Seq<char>|
            right == #[trigger] (front + part + back);
        assert(left + right =~= (left + front) + part + back);
    }
}

/// A list joined mentions each of its parts.
pub proof fn joined_parts_are_mentioned(
    parts: Seq<Seq<char>>,
    separator: Seq<char>,
    place: int,
)
    requires
        0 <= place < parts.len(),
    ensures
        mentions(joined(parts, separator), parts[place]),
    decreases parts.len(),
{
    broadcast use {text_mentions_itself, halves_are_mentioned};

    if parts.len() > 1 && place < parts.len() - 1 {
        joined_parts_are_mentioned(parts.drop_last(), separator, place);
    }
}

/// Every message ends in the seed that replays the run, readable as a number.
pub proof fn seed_notes_name_the_seed(left: u64, right: u64)
    ensures
        mentions(seed_note(left), hexadecimal(left as nat)),
        left != right ==> seed_note(left) != seed_note(right),
{
    broadcast use {text_mentions_itself, halves_are_mentioned};

    reveal_strlit(" (seed=");
    reveal_strlit(")");
    if left != right && seed_note(left) == seed_note(right) {
        let one = seed_note(left);
        let other = seed_note(right);
        assert(hexadecimal(left as nat) =~= one.subrange(7, one.len() - 1));
        assert(hexadecimal(right as nat) =~= other.subrange(7, other.len() - 1));
        renderings_tell_numbers_apart(left as nat, right as nat);
    }
}

/// An optional number renders as the number or as nothing, never alike.
pub proof fn optional_numbers_are_told_apart(left: u64, right: u64)
    ensures
        mentions(optional(Some(left)), decimal(left as nat)),
        optional(Some(left)) != optional(None),
        left != right ==> optional(Some(left)) != optional(Some(right)),
        boolean(true) != boolean(false),
{
    broadcast use {text_mentions_itself, halves_are_mentioned};

    reveal_strlit("Some(");
    reveal_strlit(")");
    reveal_strlit("None");
    reveal_strlit("true");
    reveal_strlit("false");
    assert(optional(Some(left))[0] == 'S');
    assert(optional(None)[0] == 'N');
    assert(boolean(true)[0] == 't');
    assert(boolean(false)[0] == 'f');
    if left != right && optional(Some(left)) == optional(Some(right)) {
        let one = optional(Some(left));
        let other = optional(Some(right));
        assert(decimal(left as nat) =~= one.subrange(5, one.len() - 1));
        assert(decimal(right as nat) =~= other.subrange(5, other.len() - 1));
        renderings_tell_numbers_apart(left as nat, right as nat);
    }
}

/// A listed set names each of its members.
pub proof fn listed_members_are_named(list: Seq<u8>, place: int)
    requires
        0 <= place < list.len(),
    ensures
        mentions(byte_set(list), decimal(list[place] as nat)),
{
    broadcast use {text_mentions_itself, halves_are_mentioned};

    let parts = list.map_values(|number: u8| decimal(number as nat));
    joined_parts_are_mentioned(parts, ", "@, place);
}

/// What a mentioned part mentions, the whole mentions.
pub proof fn parts_of_parts_are_mentioned(text: Seq<char>, middle: Seq<char>, part: Seq<char>)
    requires
        mentions(text, middle),
        mentions(middle, part),
    ensures
        mentions(text, part),
{
    broadcast use {text_mentions_itself, halves_are_mentioned};

    let (front, back) = choose|front: Seq<char>, back: Seq<char>|
        text == #[trigger] (front + middle + back);
    assert(mentions(front + middle + back, part));
}

} // verus!
