//! How numbers are written.
use vstd::prelude::*;

use crate::text::{decimal, hex_byte, spaces};

verus! {

/// What digits are worth in a base, where letters follow the nine.
pub open spec fn digit_worth(c: char) -> int {
    let n = c as int;
    if 0x30 <= n <= 0x39 {
        n - 0x30
    } else if 0x61 <= n <= 0x66 {
        n - 0x61 + 10
    } else {
        -1
    }
}

pub open spec fn worth(digits: Seq<char>, base: int) -> int
    decreases digits.len(),
{
    if digits.len() == 0 {
        0
    } else {
        base * worth(digits.drop_last(), base) + digit_worth(digits.last())
    }
}

/// A number is written with the digits 0 to 9 that are worth it, the most
/// significant first, and none too many.
pub proof fn lemma_decimal_is_worth_its_number(n: nat)
    ensures
        worth(decimal(n), 10) == n,
        decimal(n).len() > 0,
        forall|i: int|
            0 <= i < decimal(n).len() ==> '0' <= #[trigger] decimal(n)[i] && decimal(n)[i] <= '9',
        decimal(n)[0] == '0' ==> n == 0 && decimal(n).len() == 1,
    decreases n,
{
    if n < 10 {
        assert(decimal(n).drop_last() =~= Seq::<char>::empty());
        assert(decimal(n).last() as int == 0x30 + n);
        assert(worth(decimal(n).drop_last(), 10) == 0);
    } else {
        lemma_decimal_is_worth_its_number(n / 10);
        let last = decimal(n).last();
        assert(last as int == 0x30 + n % 10);
        assert(decimal(n).drop_last() =~= decimal(n / 10));
        assert(decimal(n)[0] == decimal(n / 10)[0]);
        assert forall|i: int| 0 <= i < decimal(n).len() implies '0' <= #[trigger] decimal(n)[i]
            && decimal(n)[i] <= '9' by {
            if i < decimal(n).len() - 1 {
                assert(decimal(n)[i] == decimal(n / 10)[i]);
            }
        }
    }
}

/// Different numbers are written differently.
pub proof fn lemma_decimals_differ(a: nat, b: nat)
    requires
        decimal(a) == decimal(b),
    ensures
        a == b,
{
    lemma_decimal_is_worth_its_number(a);
    lemma_decimal_is_worth_its_number(b);
}

/// A byte takes two hexadecimal digits in small letters, the upper one first.
pub proof fn lemma_hex_is_worth_its_byte(byte: u8)
    ensures
        hex_byte(byte).len() == 2,
        16 * digit_worth(hex_byte(byte)[0]) + digit_worth(hex_byte(byte)[1]) == byte,
        0 <= digit_worth(hex_byte(byte)[0]) < 16,
        0 <= digit_worth(hex_byte(byte)[1]) < 16,
{
    let high = (byte / 16) as int;
    let low = (byte % 16) as int;
    assert(hex_byte(byte)[0] as int == if high < 10 {
        0x30 + high
    } else {
        0x57 + high
    });
    assert(hex_byte(byte)[1] as int == if low < 10 {
        0x30 + low
    } else {
        0x57 + low
    });
}

/// Spaces are as many as asked for.
pub proof fn lemma_spaces(count: int)
    ensures
        count >= 0 ==> spaces(count).len() == count,
        count <= 0 ==> spaces(count).len() == 0,
        forall|i: int| 0 <= i < spaces(count).len() ==> #[trigger] spaces(count)[i] == ' ',
{
}

} // verus!
