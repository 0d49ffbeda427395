use vstd::prelude::*;
use vstd::string::*;

verus! {

/// The hexadecimal digit for `d` (below 16), upper or lower case.
pub open spec fn hex_digit(d: nat, upper: bool) -> char {
    if upper {
        seq!['0', '1', '2', '3', '4', '5', '6', '7', '8', '9', 'A', 'B', 'C', 'D', 'E', 'F'][d as int]
    } else {
        seq!['0', '1', '2', '3', '4', '5', '6', '7', '8', '9', 'a', 'b', 'c', 'd', 'e', 'f'][d as int]
    }
}

/// `n` in hexadecimal, most significant digit first, with no leading zeros
/// (zero is the single digit `0`).
pub open spec fn hex_text(n: nat, upper: bool) -> Seq<char>
    decreases n,
{
    if n < 16 {
        seq![hex_digit(n, upper)]
    } else {
        hex_text(n / 16, upper) + seq![hex_digit(n % 16, upper)]
    }
}

fn digit_str(d: u32, upper: bool) -> (r: &'static str)
    requires
        d < 16,
    ensures
        r@ == seq![hex_digit(d as nat, upper)],
{
    let digits = if upper {
        "0123456789ABCDEF"
    } else {
        "0123456789abcdef"
    };
    proof {
        reveal_strlit("0123456789ABCDEF");
        reveal_strlit("0123456789abcdef");
    }
    let r = digits.substring_char(d as usize, d as usize + 1);
    assert(r@ =~= seq![hex_digit(d as nat, upper)]);
    r
}

/// Appends the hexadecimal form of `n` to `out`.
pub fn push_hex(out: &mut String, n: u32, upper: bool)
    ensures
        final(out)@ == old(out)@ + hex_text(n as nat, upper),
    decreases n,
{
    if n >= 16 {
        push_hex(out, n / 16, upper);
    }
    out.append(digit_str(n % 16, upper));
    assert(final(out)@ =~= old(out)@ + hex_text(n as nat, upper));
}

/// `n` in decimal, most significant digit first, with no leading zeros.
pub open spec fn dec_text(n: nat) -> Seq<char>
    decreases n,
{
    if n < 10 {
        seq![hex_digit(n, true)]
    } else {
        dec_text(n / 10) + seq![hex_digit(n % 10, true)]
    }
}

/// Appends the decimal form of `n` to `out`.
pub fn push_dec(out: &mut String, n: u32)
    ensures
        final(out)@ == old(out)@ + dec_text(n as nat),
    decreases n,
{
    if n >= 10 {
        push_dec(out, n / 10);
    }
    out.append(digit_str(n % 10, true));
    assert(final(out)@ =~= old(out)@ + dec_text(n as nat));
}

} // verus!
