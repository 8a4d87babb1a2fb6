//! The text form of numbers and of lists of numbers.

use vstd::prelude::*;
use vstd::string::*;

verus! {

/// The character that stands for the digit `d`, for `d` below sixteen.
pub open spec fn digit(d: int) -> char
    recommends
        0 <= d < 16,
{
    "0123456789abcdef"@[d]
}

/// The numeral of `n` to the base `base`: its digits, the most significant
/// first, without leading zeros.
pub open spec fn numeral(n: nat, base: nat) -> Seq<char>
    recommends
        2 <= base <= 16,
    decreases n,
    via numeral_terminates
{
    if 2 <= base <= n {
        numeral(n / base, base).push(digit((n % base) as int))
    } else {
        seq![digit(n as int)]
    }
}

#[via_fn]
proof fn numeral_terminates(n: nat, base: nat) {
    if 2 <= base <= n {
        assert(n / base < n) by (nonlinear_arith)
            requires
                2 <= base <= n,
        ;
    }
}

/// The numerals of `values` to the base `base`, with `separator` between
/// each two of them.
pub open spec fn numeral_list(values: Seq<u16>, base: nat, separator: Seq<char>) -> Seq<char>
    decreases values.len(),
{
    if values.len() == 0 {
        Seq::empty()
    } else if values.len() == 1 {
        numeral(values[0] as nat, base)
    } else {
        numeral_list(values.drop_last(), base, separator) + separator + numeral(
            values.last() as nat,
            base,
        )
    }
}

fn digit_text(d: u16) -> (text: &'static str)
    requires
        d < 16,
    ensures
        text@ == seq![digit(d as int)],
{
    proof {
        reveal_strlit("0123456789abcdef");
        reveal_strlit("0");
        reveal_strlit("1");
        reveal_strlit("2");
        reveal_strlit("3");
        reveal_strlit("4");
        reveal_strlit("5");
        reveal_strlit("6");
        reveal_strlit("7");
        reveal_strlit("8");
        reveal_strlit("9");
        reveal_strlit("a");
        reveal_strlit("b");
        reveal_strlit("c");
        reveal_strlit("d");
        reveal_strlit("e");
        reveal_strlit("f");
    }
    match d {
        0 => "0",
        1 => "1",
        2 => "2",
        3 => "3",
        4 => "4",
        5 => "5",
        6 => "6",
        7 => "7",
        8 => "8",
        9 => "9",
        10 => "a",
        11 => "b",
        12 => "c",
        13 => "d",
        14 => "e",
        _ => "f",
    }
}

/// Appends the numeral of `n` to the base `base` to `text`.
pub(crate) fn append_numeral(text: &mut String, n: u16, base: u16)
    requires
        2 <= base <= 16,
    ensures
        final(text)@ == old(text)@ + numeral(n as nat, base as nat),
    decreases n,
{
    if n >= base {
        assert(n / base < n) by (nonlinear_arith)
            requires
                2 <= base <= n,
        ;
        append_numeral(text, n / base, base);
    }
    text.append(digit_text(n % base));
    proof {
        if n < base {
            assert(n % base == n) by (nonlinear_arith)
                requires
                    0 <= n < base,
            ;
        }
    }
}

/// Appends to `text` the numerals of `values[from..to]` to the base `base`,
/// with `separator` between each two of them.
pub(crate) fn append_numeral_list(
    text: &mut String,
    values: &Vec<u16>,
    from: usize,
    to: usize,
    base: u16,
    separator: &str,
)
    requires
        from <= to <= values.len(),
        2 <= base <= 16,
    ensures
        final(text)@ == old(text)@ + numeral_list(
            values@.subrange(from as int, to as int),
            base as nat,
            separator@,
        ),
{
    let ghost before = text@;
    let mut i: usize = from;
    while i < to
        invariant
            from <= i <= to <= values.len(),
            2 <= base <= 16,
            text@ == before + numeral_list(
                values@.subrange(from as int, i as int),
                base as nat,
                separator@,
            ),
        decreases to - i,
    {
        let ghost done = values@.subrange(from as int, i as int);
        let ghost next = values@.subrange(from as int, i + 1);
        if i > from {
            text.append(separator);
        }
        append_numeral(text, values[i], base);
        proof {
            assert(next.drop_last() =~= done);
            if i > from {
                assert(text@ =~= before + (numeral_list(done, base as nat, separator@)
                    + separator@ + numeral(values[i as int] as nat, base as nat)));
            }
        }
        i += 1;
    }
}

} // verus!
