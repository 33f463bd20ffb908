//! Putting texts together.
use vstd::prelude::*;

verus! {

/// A number in decimal digits.
pub open spec fn decimal_text(n: nat) -> Seq<char>
    decreases n,
{
    if n < 10 {
        seq![(48 + n) as char]
    } else {
        decimal_text(n / 10) + seq![(48 + n % 10) as char]
    }
}

/// A decimal digit.
pub fn digit(n: usize) -> (text: &'static str)
    requires
        n < 10,
    ensures
        text@ == seq![(48 + n) as char],
{
    let all = "0123456789";
    proof {
        reveal_strlit("0123456789");
        assert(all@.len() == 10);
    }
    let text = all.substring_ascii(n, n + 1);
    assert(text@ =~= seq![all@[n as int]]);
    text
}

/// Appends a number in decimal digits.
pub fn push_decimal(out: &mut String, n: u128)
    ensures
        final(out)@ == old(out)@ + decimal_text(n as nat),
    decreases n,
{
    let ghost start = out@;
    if n >= 10 {
        push_decimal(out, n / 10);
    }
    out.append(digit((n % 10) as usize));
    assert(out@ =~= start + decimal_text(n as nat));
}

/// Appends a number in decimal digits, between two texts.
pub fn push_number(out: &mut String, before: &str, n: u128, after: &str)
    ensures
        final(out)@ == old(out)@ + (before@ + decimal_text(n as nat) + after@),
{
    let ghost start = out@;
    out.append(before);
    push_decimal(out, n);
    out.append(after);
    assert(out@ =~= start + (before@ + decimal_text(n as nat) + after@));
}

} // verus!
