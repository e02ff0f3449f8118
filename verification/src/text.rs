//! Text that messages are made of.

use vstd::prelude::*;

verus! {

/// The text that `bitcoin::Amount` displays as for an amount in satoshis.
pub uninterp spec fn amount_display(sats: u64) -> Seq<char>;

/// Calls `to_string` on a `bitcoin::Amount`.
///
/// Claimed of it: the text depends on the amount alone.
#[verifier::external_body]
pub(crate) fn amount_text(sats: u64) -> (text: String)
    ensures
        text@ == amount_display(sats),
{
    bitcoin::Amount::from_sat(sats).to_string()
}

/// The decimal digits of `n`, without leading zeros.
pub open spec fn decimal(n: nat) -> Seq<char>
    decreases n,
{
    if n < 10 {
        seq![('0' as u32 + n) as char]
    } else {
        decimal(n / 10).push(('0' as u32 + n % 10) as char)
    }
}

/// A decimal digit as a text.
fn digit_text(digit: usize) -> (text: String)
    requires
        digit < 10,
    ensures
        text@ == decimal(digit as nat),
{
    proof {
        reveal_strlit("0");
        reveal_strlit("1");
        reveal_strlit("2");
        reveal_strlit("3");
        reveal_strlit("4");
        reveal_strlit("5");
        reveal_strlit("6");
        reveal_strlit("7");
        reveal_strlit("8");
        reveal_strlit("9");
    }
    let text = match digit {
        0 => "0",
        1 => "1",
        2 => "2",
        3 => "3",
        4 => "4",
        5 => "5",
        6 => "6",
        7 => "7",
        8 => "8",
        _ => "9",
    };
    assert(text@ =~= decimal(digit as nat));
    text.to_owned()
}

/// The decimal digits of `n` as a text.
pub(crate) fn decimal_text(n: usize) -> (text: String)
    ensures
        text@ == decimal(n as nat),
    decreases n,
{
    if n < 10 {
        return digit_text(n);
    }
    let text = decimal_text(n / 10).concat(digit_text(n % 10).as_str());
    assert(text@ =~= decimal(n as nat));
    text
}

/// The hexadecimal digit of a number below 16.
pub open spec fn hex_digit(n: int) -> char {
    if n < 10 {
        ('0' as u32 + n) as char
    } else {
        ('a' as u32 + n - 10) as char
    }
}

/// Some bytes in hexadecimal, two digits each.
pub open spec fn lower_hex(bytes: Seq<u8>) -> Seq<char> {
    Seq::new(
        2 * bytes.len(),
        |i: int|
            if i % 2 == 0 {
                hex_digit(bytes[i / 2] as int / 16)
            } else {
                hex_digit(bytes[i / 2] as int % 16)
            },
    )
}

/// Calls `bitcoin::hex::DisplayHex::to_lower_hex_string`.
///
/// Claimed of it: it writes the bytes in lowercase hexadecimal.
#[verifier::external_body]
pub(crate) fn lower_hex_text(bytes: &[u8]) -> (text: String)
    ensures
        text@ == lower_hex(bytes@),
{
    bitcoin::hex::DisplayHex::to_lower_hex_string(bytes)
}

/// The number that decimal digits stand for.
pub open spec fn number_of_digits(digits: Seq<char>) -> int {
    digits.fold_left(0, |number: int, digit: char| 10 * number + (digit as int - '0' as int))
}

/// Decimal digits stand for the number that they were written for, and do not start with a zero
/// unless it is the only digit.
pub proof fn lemma_decimal_is_the_number(n: nat)
    ensures
        number_of_digits(decimal(n)) == n,
        decimal(n).len() > 0,
        forall|i: int| 0 <= i < decimal(n).len() ==> '0' <= #[trigger] decimal(n)[i] <= '9',
        decimal(n).len() > 1 ==> decimal(n)[0] != '0',
        n > 0 ==> decimal(n)[0] != '0',
    decreases n,
{
    if n < 10 {
        reveal_with_fuel(Seq::fold_left, 2);
        assert(decimal(n).drop_last() =~= Seq::empty());
    } else {
        lemma_decimal_is_the_number(n / 10);
        assert(decimal(n).drop_last() =~= decimal(n / 10));
        assert(n == 10 * (n / 10) + n % 10);
    }
}

} // verus!
