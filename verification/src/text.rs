//! Rendering of integers into text.
use vstd::prelude::*;
use vstd::string::*;

verus! {

pub open spec fn digit_char(digit: nat) -> char {
    if digit == 0 {
        '0'
    } else if digit == 1 {
        '1'
    } else if digit == 2 {
        '2'
    } else if digit == 3 {
        '3'
    } else if digit == 4 {
        '4'
    } else if digit == 5 {
        '5'
    } else if digit == 6 {
        '6'
    } else if digit == 7 {
        '7'
    } else if digit == 8 {
        '8'
    } else {
        '9'
    }
}

/// The decimal digits of `n`, most significant first, without leading zeros.
pub open spec fn decimal(n: nat) -> Seq<char>
    decreases n,
{
    if n < 10 {
        seq![digit_char(n)]
    } else {
        decimal(n / 10).push(digit_char(n % 10))
    }
}

pub(crate) fn push_digit(out: &mut String, digit: u64)
    requires
        digit < 10,
    ensures
        final(out)@ == old(out)@.push(digit_char(digit as nat)),
{
    let glyph: &str = match digit {
        0 => "0",
        1 => "1",
        2 => "2",
        3 => "3",
        4 => "4",
        5 => "5",
        6 => "6",
        7 => "7",
        8 => "8",
        _ => "9",
    };
    proof {
        reveal_strlit("0");
        reveal_strlit("1");
        reveal_strlit("2");
        reveal_strlit("3");
        reveal_strlit("4");
        reveal_strlit("5");
        reveal_strlit("6");
        reveal_strlit("7");
        reveal_strlit("8");
        reveal_strlit("9");
    }
    assert(glyph@ =~= seq![digit_char(digit as nat)]);
    out.append(glyph);
    assert(out@ =~= old(out)@.push(digit_char(digit as nat)));
}

/// Appends the decimal rendering of `n`.
pub fn push_decimal(out: &mut String, n: u64)
    ensures
        final(out)@ == old(out)@ + decimal(n as nat),
    decreases n,
{
    if n >= 10 {
        push_decimal(out, n / 10);
    }
    push_digit(out, n % 10);
    assert(out@ =~= old(out)@ + decimal(n as nat));
}

pub open spec fn hex_char(digit: nat) -> char {
    if digit < 10 {
        digit_char(digit)
    } else if digit == 10 {
        'a'
    } else if digit == 11 {
        'b'
    } else if digit == 12 {
        'c'
    } else if digit == 13 {
        'd'
    } else if digit == 14 {
        'e'
    } else {
        'f'
    }
}

/// The hexadecimal digits of `n`, most significant first, without leading zeros.
pub open spec fn hexadecimal(n: nat) -> Seq<char>
    decreases n,
{
    if n < 16 {
        seq![hex_char(n)]
    } else {
        hexadecimal(n / 16).push(hex_char(n % 16))
    }
}

fn push_hex_digit(out: &mut String, digit: u64)
    requires
        digit < 16,
    ensures
        final(out)@ == old(out)@.push(hex_char(digit as nat)),
{
    if digit < 10 {
        push_digit(out, digit);
        return;
    }
    let glyph: &str = match digit {
        10 => "a",
        11 => "b",
        12 => "c",
        13 => "d",
        14 => "e",
        _ => "f",
    };
    proof {
        reveal_strlit("a");
        reveal_strlit("b");
        reveal_strlit("c");
        reveal_strlit("d");
        reveal_strlit("e");
        reveal_strlit("f");
    }
    assert(glyph@ =~= seq![hex_char(digit as nat)]);
    out.append(glyph);
    assert(out@ =~= old(out)@.push(hex_char(digit as nat)));
}

/// Appends the hexadecimal rendering of `n`.
pub fn push_hexadecimal(out: &mut String, n: u64)
    ensures
        final(out)@ == old(out)@ + hexadecimal(n as nat),
    decreases n,
{
    if n >= 16 {
        push_hexadecimal(out, n / 16);
    }
    push_hex_digit(out, n % 16);
    assert(out@ =~= old(out)@ + hexadecimal(n as nat));
}

/// The digit that a character stands for.
pub open spec fn digit_of(glyph: char) -> int {
    if '0' <= glyph && glyph <= '9' {
        glyph as int - '0' as int
    } else if 'a' <= glyph && glyph <= 'f' {
        glyph as int - 'a' as int + 10
    } else {
        -1
    }
}

/// The number that digits stand for, read in `base`.
pub open spec fn number_of(digits: Seq<char>, base: int) -> int
    decreases digits.len(),
{
    if digits.len() == 0 {
        0
    } else {
        number_of(digits.drop_last(), base) * base + digit_of(digits.last())
    }
}

/// Reading a decimal rendering gives the number back, digit by digit, and it
/// starts with a zero only where it is one.
pub proof fn law_decimal_reads_back(n: nat)
    ensures
        number_of(decimal(n), 10) == n,
        decimal(n).len() > 0,
        n > 0 ==> decimal(n)[0] != '0',
        n == 0 ==> decimal(n) == seq!['0'],
        forall|i: int|
            0 <= i < decimal(n).len() ==> 0 <= digit_of(#[trigger] decimal(n)[i]) < 10,
    decreases n,
{
    reveal_with_fuel(number_of, 2);
    if n < 10 {
        assert(decimal(n).drop_last() =~= Seq::<char>::empty());
    } else {
        law_decimal_reads_back(n / 10);
        assert(decimal(n).drop_last() =~= decimal(n / 10));
        assert(decimal(n).last() == digit_char(n % 10));
        assert forall|i: int| 0 <= i < decimal(n).len() implies 0 <= digit_of(
            #[trigger] decimal(n)[i],
        ) < 10 by {
            if i < decimal(n / 10).len() {
                assert(decimal(n)[i] == decimal(n / 10)[i]);
            }
        }
        assert(decimal(n)[0] == decimal(n / 10)[0]);
    }
}

/// Reading a hexadecimal rendering gives the number back, and it starts with a
/// zero only where it is one.
pub proof fn law_hexadecimal_reads_back(n: nat)
    ensures
        number_of(hexadecimal(n), 16) == n,
        hexadecimal(n).len() > 0,
        n > 0 ==> hexadecimal(n)[0] != '0',
        n == 0 ==> hexadecimal(n) == seq!['0'],
    decreases n,
{
    reveal_with_fuel(number_of, 2);
    if n < 16 {
        assert(hexadecimal(n).drop_last() =~= Seq::<char>::empty());
    } else {
        law_hexadecimal_reads_back(n / 16);
        assert(hexadecimal(n).drop_last() =~= hexadecimal(n / 16));
        assert(hexadecimal(n).last() == hex_char(n % 16));
        assert(hexadecimal(n)[0] == hexadecimal(n / 16)[0]);
    }
}

/// `text` goes on with `tail` to its end.
pub open spec fn ends_with(text: Seq<char>, tail: Seq<char>) -> bool {
    tail.len() <= text.len() && text.skip(text.len() - tail.len()) == tail
}

/// Text that is put behind other text ends it.
pub proof fn lemma_ends_with(head: Seq<char>, tail: Seq<char>)
    ensures
        ends_with(head + tail, tail),
{
    assert((head + tail).skip((head + tail).len() - tail.len()) =~= tail);
}

} // verus!
