//! Decimal rendering and parsing of unsigned integers, used by the cache
//! document format.

use vstd::prelude::*;

verus! {

/// The decimal digit character for `d` (0 to 9).
pub open spec fn digit_char(d: int) -> char {
    ((48 + d) as u32) as char
}

/// The decimal digits of `n`, most significant first.
pub open spec fn dec_digits(n: nat) -> Seq<char>
    decreases n,
{
    if n < 10 {
        seq![digit_char(n as int)]
    } else {
        dec_digits(n / 10).push(digit_char((n % 10) as int))
    }
}

/// Whether `c` is a decimal digit.
pub open spec fn is_digit(c: char) -> bool {
    48 <= c as u32 <= 57
}

/// The value of the digit `c`.
pub open spec fn digit_val(c: char) -> int {
    c as u32 - 48
}

/// The value of the digit string `ds` appended to a leading value `acc`.
pub open spec fn digits_value_acc(ds: Seq<char>, acc: nat) -> nat
    decreases ds.len(),
{
    if ds.len() == 0 {
        acc
    } else {
        digits_value_acc(ds.drop_first(), (acc * 10 + digit_val(ds.first())) as nat)
    }
}

/// Appending one digit multiplies the accumulated value by ten and adds it.
pub proof fn lemma_digits_value_push(ds: Seq<char>, d: char, acc: nat)
    requires
        is_digit(d),
        forall|i: int| 0 <= i < ds.len() ==> is_digit(ds[i]),
    ensures
        digits_value_acc(ds.push(d), acc) == digits_value_acc(ds, acc) * 10 + digit_val(d),
    decreases ds.len(),
{
    if ds.len() == 0 {
        reveal_with_fuel(digits_value_acc, 3);
        assert(ds.push(d).drop_first() =~= Seq::<char>::empty());
        assert(ds.push(d).first() == d);
    } else {
        assert(ds.push(d).drop_first() =~= ds.drop_first().push(d));
        assert(ds.push(d).first() == ds.first());
        lemma_digits_value_push(ds.drop_first(), d, (acc * 10 + digit_val(ds.first())) as nat);
    }
}

/// The accumulated value never shrinks.
pub proof fn lemma_digits_value_ge(ds: Seq<char>, acc: nat)
    requires
        forall|i: int| 0 <= i < ds.len() ==> is_digit(ds[i]),
    ensures
        digits_value_acc(ds, acc) >= acc,
    decreases ds.len(),
{
    if ds.len() > 0 {
        assert(is_digit(ds.first()));
        lemma_digits_value_ge(ds.drop_first(), (acc * 10 + digit_val(ds.first())) as nat);
    }
}

/// The digits of `n` are digits, start without a spurious leading zero for
/// `n > 0`, and parse back to `n`.
pub proof fn lemma_dec_digits(n: nat)
    ensures
        dec_digits(n).len() >= 1,
        forall|i: int| 0 <= i < dec_digits(n).len() ==> is_digit(#[trigger] dec_digits(n)[i]),
        digits_value_acc(dec_digits(n), 0) == n,
    decreases n,
{
    if n < 10 {
        reveal_with_fuel(digits_value_acc, 3);
        assert((((48 + n) as u32) as char) as u32 == 48 + n);
        assert(dec_digits(n) =~= seq![digit_char(n as int)]);
        assert(is_digit(digit_char(n as int)));
        assert(digit_val(digit_char(n as int)) == n);
        assert(digits_value_acc(seq![digit_char(n as int)], 0) == digit_val(
            digit_char(n as int),
        )) by {
            assert(seq![digit_char(n as int)].drop_first() =~= Seq::<char>::empty());
        }
    } else {
        assert((((48 + (n % 10)) as u32) as char) as u32 == 48 + (n % 10));
        lemma_dec_digits(n / 10);
        lemma_digits_value_push(dec_digits(n / 10), digit_char((n % 10) as int), 0);
        assert(digit_val(digit_char((n % 10) as int)) == n % 10);
        assert((n / 10) * 10 + n % 10 == n);
        assert(forall|i: int|
            0 <= i < dec_digits(n).len() ==> is_digit(#[trigger] dec_digits(n)[i])) by {
            assert(forall|i: int|
                0 <= i < dec_digits(n / 10).len() ==> is_digit(#[trigger] dec_digits(n / 10)[i]));
            assert(dec_digits(n) == dec_digits(n / 10).push(digit_char((n % 10) as int)));
        }
    }
}

/// The decimal digit character for `d`, executably.
pub fn digit_char_of(d: u64) -> (r: char)
    requires
        d <= 9,
    ensures
        r == digit_char(d as int),
{
    if d == 0 {
        '0'
    } else if d == 1 {
        '1'
    } else if d == 2 {
        '2'
    } else if d == 3 {
        '3'
    } else if d == 4 {
        '4'
    } else if d == 5 {
        '5'
    } else if d == 6 {
        '6'
    } else if d == 7 {
        '7'
    } else if d == 8 {
        '8'
    } else {
        '9'
    }
}

/// The decimal digits of `n`, most significant first.
pub fn u64_to_dec(n: u64) -> (r: Vec<char>)
    ensures
        r@ == dec_digits(n as nat),
    decreases n,
{
    if n < 10 {
        let mut out: Vec<char> = Vec::new();
        out.push(digit_char_of(n));
        proof {
            assert(out@ =~= seq![digit_char(n as int)]);
        }
        out
    } else {
        let mut out = u64_to_dec(n / 10);
        out.push(digit_char_of(n % 10));
        out
    }
}

/// The value of a digit character, executably.
pub fn digit_val_of(c: char) -> (r: u64)
    requires
        is_digit(c),
    ensures
        r == digit_val(c),
        r <= 9,
{
    (c as u32 as u64) - 48
}

/// Whether `c` is a decimal digit, executably.
pub fn is_digit_char(c: char) -> (r: bool)
    ensures
        r == is_digit(c),
{
    let u = c as u32;
    48 <= u && u <= 57
}

} // verus!
