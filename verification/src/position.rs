//! The value of a position annotation: unsigned decimal numbers with colons
//! between them.

use vstd::prelude::*;

verus! {

/// The character between two fields.
pub const SEPARATOR: char = ':';

/// Whether `c` is one of the ten decimal digits.
pub open spec fn is_digit(c: char) -> bool {
    '0' <= c && c <= '9'
}

/// The digit that `c` stands for.
pub open spec fn digit_value(c: char) -> nat {
    (c as u32 - '0' as u32) as nat
}

/// Whether every character is a decimal digit.
pub open spec fn all_digits(text: Seq<char>) -> bool {
    forall|i: int| 0 <= i < text.len() ==> is_digit(#[trigger] text[i])
}

/// The number that a run of decimal digits stands for.
pub open spec fn decimal_value(digits: Seq<char>) -> nat
    decreases digits.len(),
{
    if digits.len() == 0 {
        0
    } else {
        decimal_value(digits.drop_last()) * 10 + digit_value(digits.last())
    }
}

/// A field without the plus sign that may stand before its digits.
pub open spec fn digits_of(field: Seq<char>) -> Seq<char> {
    if field.len() > 0 && field[0] == '+' {
        field.drop_first()
    } else {
        field
    }
}

/// The number that a field stands for: one or more decimal digits, after an
/// optional plus sign, whose value fits 64 bits.
pub open spec fn parse_u64(field: Seq<char>) -> Option<u64> {
    let digits = digits_of(field);
    if digits.len() > 0 && all_digits(digits) && decimal_value(digits) <= u64::MAX {
        Some(decimal_value(digits) as u64)
    } else {
        None
    }
}

/// The fields that `text` has completed, and the field it has begun since.
pub open spec fn scan_fields(text: Seq<char>) -> (Seq<Seq<char>>, Seq<char>)
    decreases text.len(),
{
    if text.len() == 0 {
        (Seq::empty(), Seq::empty())
    } else {
        let (done, current) = scan_fields(text.drop_last());
        if text.last() == SEPARATOR {
            (done.push(current), Seq::empty())
        } else {
            (done, current.push(text.last()))
        }
    }
}

/// The fields of a text: what stands between its colons. A text without a
/// colon is one field, and a field may be empty.
pub open spec fn fields_of(text: Seq<char>) -> Seq<Seq<char>> {
    let (done, current) = scan_fields(text);
    done.push(current)
}

/// Whether every field stands for a number.
pub open spec fn all_numbers(fields: Seq<Seq<char>>) -> bool {
    forall|i: int| 0 <= i < fields.len() ==> (#[trigger] parse_u64(fields[i])) is Some
}

/// The numbers of a position: those of its fields, where every field stands
/// for one.
pub open spec fn numbers_of(text: Seq<char>) -> Option<Seq<u64>> {
    let fields = fields_of(text);
    if all_numbers(fields) {
        Some(fields.map_values(|field: Seq<char>| parse_u64(field).unwrap()))
    } else {
        None
    }
}

/// Whether a field, as far as it has been read, can still stand for a number:
/// its digits are digits and their value fits.
pub open spec fn well_begun(field: Seq<char>) -> bool {
    all_digits(digits_of(field)) && decimal_value(digits_of(field)) <= u64::MAX
}

/// The digits of a field that has grown by one character.
proof fn lemma_digits_of_push(field: Seq<char>, c: char)
    ensures
        digits_of(field.push(c)) == if field.len() == 0 && c == '+' {
            Seq::<char>::empty()
        } else {
            digits_of(field).push(c)
        },
{
    if field.len() == 0 {
        if c == '+' {
            assert(field.push(c).drop_first() =~= Seq::<char>::empty());
        } else {
            assert(field.push(c) =~= digits_of(field).push(c));
        }
    } else {
        assert(field.push(c)[0] == field[0]);
        if field[0] == '+' {
            assert(field.push(c).drop_first() =~= field.drop_first().push(c));
        }
    }
}

/// The value of digits that have grown by one.
proof fn lemma_decimal_value_push(digits: Seq<char>, c: char)
    ensures
        decimal_value(digits.push(c)) == decimal_value(digits) * 10 + digit_value(c),
{
    assert(digits.push(c).drop_last() =~= digits);
}

/// Parses a colon-separated list of unsigned decimal numbers.
pub fn to_vec_u64(value: &str) -> (r: Option<Vec<u64>>)
    ensures
        match r {
            Some(numbers) => numbers_of(value@) == Some(numbers@),
            None => numbers_of(value@) is None,
        },
{
    let mut numbers: Vec<u64> = Vec::new();
    // Whether the fields that are complete all stand for numbers.
    let mut done_ok = true;
    // The field that is being read: whether it is empty, whether it has a
    // digit, whether it can still stand for a number, and the value of its
    // digits where it can.
    let mut empty = true;
    let mut has_digit = false;
    let mut ok = true;
    let mut value_so_far: u64 = 0;
    let ghost text = value@;
    assert(text.take(0) =~= Seq::empty());
    for c in iter: value.chars()
        invariant
            iter.seq() == text,
            ({
                let (done, current) = scan_fields(text.take(iter.index()));
                &&& done_ok == all_numbers(done)
                &&& done_ok ==> numbers@ == done.map_values(
                    |field: Seq<char>| parse_u64(field).unwrap(),
                )
                &&& empty == (current.len() == 0)
                &&& has_digit == (digits_of(current).len() > 0)
                &&& ok == well_begun(current)
                &&& ok ==> value_so_far == decimal_value(digits_of(current))
            }),
    {
        let ghost i = iter.index();
        let ghost (done, current) = scan_fields(text.take(i));
        assert(text.take(i + 1).drop_last() =~= text.take(i));
        assert(text.take(i + 1).last() == c);
        proof {
            lemma_digits_of_push(current, c);
            lemma_decimal_value_push(digits_of(current), c);
        }
        if c == SEPARATOR {
            let field_ok = ok && has_digit;
            assert(field_ok == parse_u64(current) is Some);
            if done_ok && field_ok {
                numbers.push(value_so_far);
                assert(numbers@ =~= done.push(current).map_values(
                    |field: Seq<char>| parse_u64(field).unwrap(),
                ));
            } else {
                assert(!all_numbers(done.push(current))) by {
                    if !field_ok {
                        assert(done.push(current)[done.len() as int] == current);
                    } else {
                        let k = choose|k: int| 0 <= k < done.len() && parse_u64(done[k]) is None;
                        assert(done.push(current)[k] == done[k]);
                    }
                }
                done_ok = false;
            }
            assert(done_ok ==> all_numbers(done.push(current))) by {
                if done_ok {
                    assert forall|k: int| 0 <= k < done.push(current).len() implies (
                    #[trigger] parse_u64(done.push(current)[k])) is Some by {
                        if k < done.len() {
                            assert(done.push(current)[k] == done[k]);
                        }
                    }
                }
            }
            empty = true;
            has_digit = false;
            ok = true;
            value_so_far = 0;
        } else {
            let ghost digits = digits_of(current);
            if empty && c == '+' {
            } else if c >= '0' && c <= '9' {
                let digit: u64 = (c as u32 - '0' as u32) as u64;
                assert(digit == digit_value(c));
                assert(all_digits(digits.push(c)) == all_digits(digits)) by {
                    if all_digits(digits) {
                        assert forall|k: int| 0 <= k < digits.push(c).len() implies is_digit(
                            #[trigger] digits.push(c)[k],
                        ) by {
                            if k < digits.len() {
                                assert(digits.push(c)[k] == digits[k]);
                            }
                        }
                    } else {
                        let k = choose|k: int| 0 <= k < digits.len() && !is_digit(digits[k]);
                        assert(digits.push(c)[k] == digits[k]);
                    }
                }
                if ok {
                    if value_so_far > (u64::MAX - digit) / 10 {
                        ok = false;
                    } else {
                        value_so_far = value_so_far * 10 + digit;
                    }
                }
                has_digit = true;
            } else {
                assert(!is_digit(c));
                assert(digits.push(c)[digits.len() as int] == c);
                ok = false;
                has_digit = true;
            }
            empty = false;
        }
    }
    assert(text.take(text.len() as int) =~= text);
    let ghost (done, current) = scan_fields(text);
    let field_ok = ok && has_digit;
    assert(field_ok == parse_u64(current) is Some);
    if done_ok && field_ok {
        numbers.push(value_so_far);
        assert(all_numbers(done.push(current))) by {
            assert forall|k: int| 0 <= k < done.push(current).len() implies (#[trigger] parse_u64(
                done.push(current)[k],
            )) is Some by {
                if k < done.len() {
                    assert(done.push(current)[k] == done[k]);
                }
            }
        }
        assert(numbers@ =~= done.push(current).map_values(
            |field: Seq<char>| parse_u64(field).unwrap(),
        ));
        Some(numbers)
    } else {
        assert(!all_numbers(done.push(current))) by {
            if !field_ok {
                assert(done.push(current)[done.len() as int] == current);
            } else {
                let k = choose|k: int| 0 <= k < done.len() && parse_u64(done[k]) is None;
                assert(done.push(current)[k] == done[k]);
            }
        }
        None
    }
}

} // verus!
