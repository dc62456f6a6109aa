//! Why reading plane files back by the number in their names recovers the
//! order of the planes.

use vstd::prelude::*;
use vstd::string::*;
use crate::common::Direction;
use crate::naming::decimal;
use crate::naming::digit_char;
use crate::naming::digit_value;
use crate::naming::digits_value;
use crate::naming::filename_number;
use crate::naming::is_digit;
use crate::naming::padded3;
use crate::naming::slice_file_name_text;

verus! {

/// The number of decimal digits in `s`.
pub open spec fn digit_count(s: Seq<char>) -> nat
    decreases s.len(),
{
    if s.len() == 0 {
        0
    } else if is_digit(s.last()) {
        digit_count(s.drop_last()) + 1
    } else {
        digit_count(s.drop_last())
    }
}

/// Ten to the power of `n`.
pub open spec fn pow10(n: nat) -> nat
    decreases n,
{
    if n == 0 {
        1
    } else {
        10 * pow10((n - 1) as nat)
    }
}

proof fn lemma_pow10_monotone(m: nat, n: nat)
    requires
        m <= n,
    ensures
        1 <= pow10(m) <= pow10(n),
    decreases n,
{
    if n > 0 {
        if m == n {
            lemma_pow10_monotone((m - 1) as nat, (n - 1) as nat);
        } else {
            lemma_pow10_monotone(m, (n - 1) as nat);
        }
    }
}

/// The digits of two texts, one after the other, spell the number of the
/// first, shifted by the digits of the second, plus the number of the second.
proof fn lemma_digits_concat(s: Seq<char>, t: Seq<char>)
    ensures
        digits_value(s + t) == digits_value(s) * pow10(digit_count(t)) + digits_value(t),
        digit_count(s + t) == digit_count(s) + digit_count(t),
    decreases t.len(),
{
    if t.len() == 0 {
        assert(s + t =~= s);
        assert(pow10(digit_count(t)) == 1);
        assert(digits_value(s) * 1 == digits_value(s)) by (nonlinear_arith);
    } else {
        let front = t.drop_last();
        assert((s + t).drop_last() =~= s + front);
        assert((s + t).last() == t.last());
        lemma_digits_concat(s, front);
        if is_digit(t.last()) {
            let a = digits_value(s);
            let p = pow10(digit_count(front));
            let b = digits_value(front);
            let d = digit_value(t.last());
            assert(pow10(digit_count(t)) == 10 * p);
            assert(digits_value(s + t) == (a * p + b) * 10 + d);
            assert((a * p + b) * 10 + d == a * (10 * p) + (b * 10 + d)) by (nonlinear_arith);
        } else {
            assert(pow10(digit_count(t)) == pow10(digit_count(front)));
            assert(digits_value(s + t) == digits_value(s + front));
        }
    }
}

/// A text without digits spells zero.
proof fn lemma_no_digits(s: Seq<char>)
    requires
        forall|i: int| 0 <= i < s.len() ==> !is_digit(#[trigger] s[i]),
    ensures
        digits_value(s) == 0,
        digit_count(s) == 0,
    decreases s.len(),
{
    if s.len() > 0 {
        let front = s.drop_last();
        assert forall|i: int| 0 <= i < front.len() implies !is_digit(#[trigger] front[i]) by {
            assert(front[i] == s[i]);
        }
        lemma_no_digits(front);
    }
}

/// A number in decimal consists of digits that spell the number.
proof fn lemma_decimal_spells(n: nat)
    ensures
        digits_value(decimal(n)) == n,
        digit_count(decimal(n)) == decimal(n).len(),
        n < 10 ==> decimal(n).len() == 1,
        10 <= n < 100 ==> decimal(n).len() == 2,
        100 <= n ==> decimal(n).len() >= 3,
    decreases n,
{
    let text = decimal(n);
    if n < 10 {
        assert(text.drop_last() =~= Seq::<char>::empty());
        assert(text.last() == digit_char(n));
        assert(digits_value(text.drop_last()) == 0);
        assert(digit_count(text.drop_last()) == 0);
    } else {
        lemma_decimal_spells(n / 10);
        assert(text.drop_last() =~= decimal(n / 10));
        assert(text.last() == digit_char(n % 10));
    }
}

/// A larger number has at least as many digits.
proof fn lemma_decimal_len_monotone(m: nat, n: nat)
    requires
        m <= n,
    ensures
        decimal(m).len() <= decimal(n).len(),
    decreases n,
{
    lemma_decimal_spells(m);
    lemma_decimal_spells(n);
    if m >= 10 {
        lemma_decimal_len_monotone(m / 10, n / 10);
    }
}

/// A number padded to three digits spells the number, and a larger number
/// has at least as many digits.
proof fn lemma_padded3_spells(m: nat, n: nat)
    requires
        m <= n,
    ensures
        digits_value(padded3(n)) == n,
        digit_count(padded3(m)) <= digit_count(padded3(n)),
{
    lemma_decimal_spells(m);
    lemma_decimal_spells(n);
    lemma_decimal_len_monotone(m, n);
    let zero = seq!['0'];
    let zeros = seq!['0', '0'];
    assert(zero.drop_last() =~= Seq::<char>::empty());
    assert(zeros.drop_last() =~= zero);
    assert(digits_value(zero.drop_last()) == 0 && digit_count(zero.drop_last()) == 0);
    assert(digits_value(zero) == 0 && digit_count(zero) == 1);
    assert(digits_value(zeros) == 0 && digit_count(zeros) == 2);
    lemma_digits_concat(zero, decimal(m));
    lemma_digits_concat(zeros, decimal(m));
    lemma_digits_concat(zero, decimal(n));
    lemma_digits_concat(zeros, decimal(n));
}

/// The texts between the parts of a file name hold no digit.
proof fn lemma_marks_have_no_digits()
    ensures
        digits_value("_axis-"@) == 0 && digit_count("_axis-"@) == 0,
        digits_value("_slice-"@) == 0 && digit_count("_slice-"@) == 0,
        digits_value("padded-"@) == 0 && digit_count("padded-"@) == 0,
        digits_value(".nii"@) == 0 && digit_count(".nii"@) == 0,
{
    reveal_strlit("_axis-");
    reveal_strlit("_slice-");
    reveal_strlit("padded-");
    reveal_strlit(".nii");
    let a = "_axis-"@;
    assert(!is_digit(a[0]) && !is_digit(a[1]) && !is_digit(a[2]) && !is_digit(a[3]) && !is_digit(
        a[4],
    ) && !is_digit(a[5]));
    lemma_no_digits(a);
    let s = "_slice-"@;
    assert(!is_digit(s[0]) && !is_digit(s[1]) && !is_digit(s[2]) && !is_digit(s[3]) && !is_digit(
        s[4],
    ) && !is_digit(s[5]) && !is_digit(s[6]));
    lemma_no_digits(s);
    let p = "padded-"@;
    assert(!is_digit(p[0]) && !is_digit(p[1]) && !is_digit(p[2]) && !is_digit(p[3]) && !is_digit(
        p[4],
    ) && !is_digit(p[5]) && !is_digit(p[6]));
    lemma_no_digits(p);
    let n = ".nii"@;
    assert(!is_digit(n[0]) && !is_digit(n[1]) && !is_digit(n[2]) && !is_digit(n[3]));
    lemma_no_digits(n);
}

/// The number that a plane's file name spells: what the digits before the
/// position spell, shifted by the digits of the position, plus the position
/// counted from one.
proof fn lemma_name_spells(basename: Seq<char>, axis: int, index: nat, padded: bool) -> (head: nat)
    ensures
        digits_value(slice_file_name_text(basename, axis, index, padded)) == head * pow10(
            digit_count(padded3(index + 1)),
        ) + index + 1,
        head == digits_value(
            basename + "_axis-"@ + seq![Direction::digit(axis)] + "_slice-"@ + (if padded {
                "padded-"@
            } else {
                Seq::empty()
            }),
        ),
{
    let front = basename + "_axis-"@ + seq![Direction::digit(axis)] + "_slice-"@ + (if padded {
        "padded-"@
    } else {
        Seq::empty()
    });
    let number = padded3(index + 1);
    lemma_marks_have_no_digits();
    lemma_padded3_spells(index + 1, index + 1);
    lemma_digits_concat(front, number);
    lemma_digits_concat(front + number, ".nii"@);
    assert(pow10(0) == 1);
    digits_value(front)
}

/// Plane files are read back in the order of the planes: of two planes of
/// one scan, cut along one axis, the file of the earlier one has the name
/// that spells the smaller number, as long as that number fits in 128 bits.
pub proof fn names_order_as_positions(
    basename: Seq<char>,
    axis: Direction,
    padded: bool,
    i: nat,
    j: nat,
)
    requires
        i < j,
        digits_value(slice_file_name_text(basename, axis.axis(), j, padded)) <= u128::MAX,
    ensures
        filename_number(slice_file_name_text(basename, axis.axis(), i, padded)) < filename_number(
            slice_file_name_text(basename, axis.axis(), j, padded),
        ),
{
    let head_i = lemma_name_spells(basename, axis.axis(), i, padded);
    let head_j = lemma_name_spells(basename, axis.axis(), j, padded);
    lemma_padded3_spells(i + 1, j + 1);
    let wi = digit_count(padded3(i + 1));
    let wj = digit_count(padded3(j + 1));
    lemma_pow10_monotone(wi, wj);
    let pi = pow10(wi);
    let pj = pow10(wj);
    assert(head_i * pi <= head_i * pj) by (nonlinear_arith)
        requires
            pi <= pj,
    ;
}

} // verus!
