//! Names of the files that hold planes and volumes, and the order in which
//! such files are read back.

use vstd::prelude::*;
use vstd::string::*;
use crate::common::Direction;

verus! {

/// Whether `c` is one of the ten decimal digits.
pub open spec fn is_digit(c: char) -> bool {
    '0' <= c && c <= '9'
}

/// The value of a decimal digit.
pub open spec fn digit_value(c: char) -> nat {
    (c as int - '0' as int) as nat
}

/// The number that the decimal digits of `s` spell when all other
/// characters are left out; zero where `s` has no digit.
pub open spec fn digits_value(s: Seq<char>) -> nat
    decreases s.len(),
{
    if s.len() == 0 {
        0
    } else if is_digit(s.last()) {
        digits_value(s.drop_last()) * 10 + digit_value(s.last())
    } else {
        digits_value(s.drop_last())
    }
}

/// The number by which a file name is ordered: the number that its digits
/// spell, or zero where that number does not fit in 128 bits.
pub open spec fn filename_number(s: Seq<char>) -> u128 {
    if digits_value(s) <= u128::MAX {
        digits_value(s) as u128
    } else {
        0
    }
}

/// The number by which a file name is ordered: its decimal digits, in the
/// order in which they occur, read as one number. A name without digits
/// gives zero, and so does one whose digits spell a number beyond 128 bits.
pub fn extract_number_from_filename(filename: &str) -> (number: u128)
    ensures
        number == filename_number(filename@),
{
    let mut value: u128 = 0;
    let mut overflow = false;
    let n = filename.unicode_len();
    let mut i: usize = 0;
    while i < n
        invariant
            i <= n,
            n == filename@.len(),
            !overflow ==> value == digits_value(filename@.take(i as int)),
            overflow ==> digits_value(filename@.take(i as int)) > u128::MAX,
        decreases n - i,
    {
        let ch = filename.get_char(i);
        proof {
            assert(filename@.take(i + 1).drop_last() =~= filename@.take(i as int));
            assert(filename@.take(i + 1).last() == ch);
        }
        if ch >= '0' && ch <= '9' {
            let d: u128 = (ch as u32 - '0' as u32) as u128;
            if !overflow {
                if value > (u128::MAX - d) / 10 {
                    overflow = true;
                } else {
                    value = value * 10 + d;
                }
            }
        }
        i += 1;
    }
    proof {
        assert(filename@.take(n as int) =~= filename@);
    }
    if overflow {
        0
    } else {
        value
    }
}

/// Whether `order` lists every place of `keys` once, by ascending key, and
/// places with the same key in the order in which they stand in `keys`.
pub open spec fn is_stable_order(keys: Seq<u128>, order: Seq<usize>) -> bool {
    &&& order.len() == keys.len()
    &&& forall|i: int| 0 <= i < order.len() ==> (#[trigger] order[i]) < keys.len()
    &&& forall|p: usize| p < keys.len() ==> order.contains(p)
    &&& forall|i: int, j: int|
        0 <= i < j < order.len() ==> comes_before(keys, #[trigger] order[i], #[trigger] order[j])
}

/// Whether place `a` of `keys` is read before place `b`: its key is
/// smaller, or the keys are the same and `a` stands first.
pub open spec fn comes_before(keys: Seq<u128>, a: usize, b: usize) -> bool {
    keys[a as int] < keys[b as int] || (keys[a as int] == keys[b as int] && a < b)
}

/// The numbers by which a list of file names is ordered.
pub open spec fn filename_numbers(names: Seq<String>) -> Seq<u128> {
    names.map_values(|name: String| filename_number(name@))
}

/// The places of `keys` in the order of their keys, smallest first. Places
/// with the same key keep the order in which they stand.
pub fn sorted_places(keys: &Vec<u128>) -> (order: Vec<usize>)
    ensures
        is_stable_order(keys@, order@),
{
    let mut order: Vec<usize> = Vec::new();
    let mut k: usize = 0;
    while k < keys.len()
        invariant
            k <= keys.len(),
            order.len() == k,
            forall|i: int| 0 <= i < order.len() ==> (#[trigger] order[i]) < k,
            forall|p: usize| p < k ==> order@.contains(p),
            forall|i: int, j: int|
                0 <= i < j < order.len() ==> comes_before(
                    keys@,
                    #[trigger] order[i],
                    #[trigger] order[j],
                ),
        decreases keys.len() - k,
    {
        let key = keys[k];
        let mut p: usize = order.len();
        while p > 0 && keys[order[p - 1]] > key
            invariant
                p <= order.len(),
                order.len() == k,
                k < keys.len(),
                key == keys[k as int],
                forall|i: int| 0 <= i < order.len() ==> (#[trigger] order[i]) < k,
                forall|j: int| p <= j < order.len() ==> keys[(#[trigger] order[j]) as int] > key,
            decreases p,
        {
            p -= 1;
        }
        let ghost before = order@;
        assert forall|i: int| 0 <= i < p implies keys[(#[trigger] before[i]) as int] <= key by {
            if i < p - 1 {
                assert(comes_before(keys@, before[i], before[p - 1]));
            }
        }
        order.insert(p, k);
        assert forall|i: int, j: int| 0 <= i < j < order.len() implies comes_before(
            keys@,
            #[trigger] order[i],
            #[trigger] order[j],
        ) by {
            let bi = if i < p { i } else { i - 1 };
            let bj = if j < p { j } else { j - 1 };
            if i != p && j != p {
                assert(order[i] == before[bi]);
                assert(order[j] == before[bj]);
                assert(comes_before(keys@, before[bi], before[bj]));
            } else if i == p {
                assert(order[j] == before[bj]);
            } else {
                assert(order[i] == before[bi]);
            }
        }
        assert forall|q: usize| q < k + 1 implies order@.contains(q) by {
            if q == k {
                assert(order[p as int] == q);
            } else {
                assert(before.contains(q));
                let i = choose|i: int| 0 <= i < before.len() && before[i] == q;
                if i < p {
                    assert(order[i] == q);
                } else {
                    assert(order[i + 1] == q);
                }
            }
        }
        assert forall|i: int| 0 <= i < order.len() implies (#[trigger] order[i]) < k + 1 by {
            if i < p {
                assert(order[i] == before[i]);
            } else if i > p {
                assert(order[i] == before[i - 1]);
            }
        }
        k += 1;
    }
    order
}

/// The order in which plane files are read back: by the number that the
/// digits of each name spell, smallest first, names with the same number in
/// the order in which they were found. The plane read as the `i`-th is the
/// plane at position `i`.
pub fn order_by_number(names: &Vec<String>) -> (order: Vec<usize>)
    ensures
        is_stable_order(filename_numbers(names@), order@),
{
    let mut keys: Vec<u128> = Vec::new();
    let mut i: usize = 0;
    while i < names.len()
        invariant
            i <= names.len(),
            keys.len() == i,
            forall|k: int| 0 <= k < i ==> keys[k] == filename_number(names[k]@),
        decreases names.len() - i,
    {
        keys.push(extract_number_from_filename(names[i].as_str()));
        i += 1;
    }
    assert(keys@ =~= filename_numbers(names@));
    sorted_places(&keys)
}

/// The character of a decimal digit.
pub open spec fn digit_char(d: nat) -> char {
    if d == 0 {
        '0'
    } else if d == 1 {
        '1'
    } else if d == 2 {
        '2'
    } else if d == 3 {
        '3'
    } else if d == 4 {
        '4'
    } else if d == 5 {
        '5'
    } else if d == 6 {
        '6'
    } else if d == 7 {
        '7'
    } else if d == 8 {
        '8'
    } else {
        '9'
    }
}

/// A number in decimal, without leading zeros.
pub open spec fn decimal(n: nat) -> Seq<char>
    decreases n,
{
    if n < 10 {
        seq![digit_char(n)]
    } else {
        decimal(n / 10).push(digit_char(n % 10))
    }
}

/// A number in decimal, with zeros in front up to a width of three.
pub open spec fn padded3(n: nat) -> Seq<char> {
    if n < 10 {
        seq!['0', '0'] + decimal(n)
    } else if n < 100 {
        seq!['0'] + decimal(n)
    } else {
        decimal(n)
    }
}

/// The name of the file that holds the plane at position `index`: the base
/// name, the axis, a mark for padded planes, and the position counted from
/// one, at least three digits wide.
pub open spec fn slice_file_name_text(
    basename: Seq<char>,
    axis: int,
    index: nat,
    padded: bool,
) -> Seq<char> {
    basename + "_axis-"@ + seq![Direction::digit(axis)] + "_slice-"@ + (if padded {
        "padded-"@
    } else {
        Seq::empty()
    }) + padded3(index + 1) + ".nii"@
}

/// The name of the file that holds the volume at time `index`.
pub open spec fn vol_file_name_text(basename: Seq<char>, index: nat) -> Seq<char> {
    basename + "_vol-"@ + padded3(index + 1) + ".nii"@
}

fn digit_str(d: u8) -> (s: &'static str)
    requires
        d < 10,
    ensures
        s@ == seq![digit_char(d as nat)],
{
    proof {
        reveal_strlit("0");
        reveal_strlit("1");
        reveal_strlit("2");
        reveal_strlit("3");
        reveal_strlit("4");
        reveal_strlit("5");
        reveal_strlit("6");
        reveal_strlit("7");
        reveal_strlit("8");
        reveal_strlit("9");
    }
    let s = if d == 0 {
        "0"
    } else if d == 1 {
        "1"
    } else if d == 2 {
        "2"
    } else if d == 3 {
        "3"
    } else if d == 4 {
        "4"
    } else if d == 5 {
        "5"
    } else if d == 6 {
        "6"
    } else if d == 7 {
        "7"
    } else if d == 8 {
        "8"
    } else {
        "9"
    };
    assert(s@ =~= seq![digit_char(d as nat)]);
    s
}

fn append_decimal(text: &mut String, n: u128)
    ensures
        final(text)@ == old(text)@ + decimal(n as nat),
    decreases n,
{
    if n >= 10 {
        append_decimal(text, n / 10);
    }
    text.append(digit_str((n % 10) as u8));
    assert(text@ =~= old(text)@ + decimal(n as nat));
}

fn append_padded3(text: &mut String, n: u128)
    ensures
        final(text)@ == old(text)@ + padded3(n as nat),
{
    proof {
        reveal_strlit("0");
        reveal_strlit("00");
    }
    if n < 10 {
        text.append("00");
    } else if n < 100 {
        text.append("0");
    }
    append_decimal(text, n);
    assert(text@ =~= old(text)@ + padded3(n as nat));
}

/// The name of the file that holds the plane at position `index` along
/// `axis` of the scan called `basename`.
pub fn slice_file_name(basename: &str, axis: &Direction, index: usize, padded: bool) -> (name:
    String)
    ensures
        name@ == slice_file_name_text(basename@, axis.axis(), index as nat, padded),
{
    let mut name = String::from_str(basename);
    name.append("_axis-");
    let a = axis.to_string();
    name.append(a.as_str());
    name.append("_slice-");
    if padded {
        name.append("padded-");
    } else {
        assert(name@ + Seq::<char>::empty() =~= name@);
    }
    append_padded3(&mut name, index as u128 + 1);
    name.append(".nii");
    name
}

/// The name of the directory that holds the planes of the scan called
/// `basename`.
pub fn slices_dir_name(basename: &str) -> (name: String)
    ensures
        name@ == basename@ + "_slices"@,
{
    String::from_str(basename).concat("_slices")
}

/// The name of the file that holds the volume at time `index` of the
/// series called `basename`.
pub fn vol_file_name(basename: &str, index: usize) -> (name: String)
    ensures
        name@ == vol_file_name_text(basename@, index as nat),
{
    let mut name = String::from_str(basename);
    name.append("_vol-");
    append_padded3(&mut name, index as u128 + 1);
    name.append(".nii");
    name
}

/// The name of the directory that holds the volumes of the series called
/// `basename`.
pub fn vols_dir_name(basename: &str) -> (name: String)
    ensures
        name@ == basename@ + "_vols"@,
{
    String::from_str(basename).concat("_vols")
}

/// The pattern that finds the plane files in `input_dir` whose names begin
/// with `start_string`.
pub fn plane_pattern(input_dir: &str, start_string: &str) -> (pattern: String)
    ensures
        pattern@ == input_dir@ + "/"@ + start_string@ + "*.nii"@,
{
    String::from_str(input_dir).concat("/").concat(start_string).concat("*.nii")
}

} // verus!
