//! Line-number labels: a number in decimal, right-aligned in a column.

use crate::text::push_char;
use vstd::prelude::*;

verus! {

/// Number of columns that a line number is padded to.
pub const LABEL_WIDTH: usize = 8;

/// The character of the decimal digit `d`.
pub open spec fn digit_char(d: int) -> char {
    if d == 0 {
        '0'
    } else if d == 1 {
        '1'
    } else if d == 2 {
        '2'
    } else if d == 3 {
        '3'
    } else if d == 4 {
        '4'
    } else if d == 5 {
        '5'
    } else if d == 6 {
        '6'
    } else if d == 7 {
        '7'
    } else if d == 8 {
        '8'
    } else {
        '9'
    }
}

/// The decimal digits of `n`, most significant first, without leading zeros.
pub open spec fn decimal(n: nat) -> Seq<char>
    decreases n,
{
    if n < 10 {
        seq![digit_char(n as int)]
    } else {
        decimal(n / 10).push(digit_char((n % 10) as int))
    }
}

/// `text` with spaces in front of it up to `width` characters; `text` itself
/// where it is at least that long.
pub open spec fn padded(text: Seq<char>, width: nat) -> Seq<char> {
    if text.len() >= width {
        text
    } else {
        Seq::new((width - text.len()) as nat, |i: int| ' ') + text
    }
}

/// The label of line number `n`: its decimal digits right-aligned in the
/// label column, and a space after them.
pub open spec fn label_spec(n: nat) -> Seq<char> {
    padded(decimal(n), LABEL_WIDTH as nat).push(' ')
}

fn digit(d: u8) -> (c: char)
    requires
        d < 10,
    ensures
        c == digit_char(d as int),
{
    match d {
        0 => '0',
        1 => '1',
        2 => '2',
        3 => '3',
        4 => '4',
        5 => '5',
        6 => '6',
        7 => '7',
        8 => '8',
        _ => '9',
    }
}

/// The decimal digits of `n`, least significant first.
fn low_digits(n: u128) -> (low: Vec<char>)
    ensures
        low@.len() == decimal(n as nat).len(),
        forall|j: int|
            0 <= j < low@.len() ==> low@[j] == decimal(n as nat)[decimal(n as nat).len() - 1 - j],
{
    let ghost digits = decimal(n as nat);
    let mut low: Vec<char> = Vec::new();
    let mut rest = n;
    proof {
        assert(digits.take(digits.len() as int) =~= digits);
    }
    while rest >= 10
        invariant
            digits == decimal(n as nat),
            low@.len() + decimal(rest as nat).len() == digits.len(),
            decimal(rest as nat) == digits.take(digits.len() - low@.len()),
            forall|j: int| 0 <= j < low@.len() ==> low@[j] == digits[digits.len() - 1 - j],
        decreases rest,
    {
        let ghost head = decimal(rest as nat);
        assert(head == decimal((rest / 10) as nat).push(digit_char((rest % 10) as int)));
        low.push(digit((rest % 10) as u8));
        proof {
            assert(head.last() == digits[digits.len() - low@.len()]);
            assert(head.drop_last() =~= digits.take(digits.len() - low@.len()));
            assert(head.drop_last() =~= decimal((rest / 10) as nat));
        }
        rest = rest / 10;
    }
    low.push(digit(rest as u8));
    low
}

/// Writes the label of line number `n`.
pub fn line_number_label(n: u128) -> (label: String)
    ensures
        label@ == label_spec(n as nat),
{
    let ghost digits = decimal(n as nat);
    let low = low_digits(n);
    let count = low.len();
    let mut label = String::new();
    let mut column = count;
    while column < LABEL_WIDTH
        invariant
            count == digits.len(),
            count <= column,
            column <= LABEL_WIDTH || column == count,
            label@ == Seq::new((column - count) as nat, |i: int| ' '),
        decreases LABEL_WIDTH - column,
    {
        push_char(&mut label, ' ');
        column += 1;
        assert(label@ =~= Seq::new((column - count) as nat, |i: int| ' '));
    }
    let ghost pad = label@;
    proof {
        assert(pad + digits =~= padded(digits, LABEL_WIDTH as nat));
        assert(pad + digits.take(0) =~= pad);
    }
    let mut left = count;
    while left > 0
        invariant
            count == digits.len(),
            count == low@.len(),
            left <= count,
            forall|j: int| 0 <= j < low@.len() ==> low@[j] == digits[digits.len() - 1 - j],
            label@ == pad + digits.take(count - left),
        decreases left,
    {
        left -= 1;
        push_char(&mut label, low[left]);
        assert(label@ =~= pad + digits.take(count - left));
    }
    proof {
        assert(digits.take(count as int) =~= digits);
    }
    push_char(&mut label, ' ');
    label
}

} // verus!
