//! Numbers as text.

use vstd::prelude::*;

verus! {

/// The decimal digit of `d`.
pub open spec fn digit(d: nat) -> char
    recommends
        d < 10,
{
    (48u8 + (d as u8)) as char
}

/// `n` in decimal notation.
pub open spec fn decimal(n: nat) -> Seq<char>
    decreases n,
{
    if n < 10 {
        seq![digit(n)]
    } else {
        decimal(n / 10).push(digit(n % 10))
    }
}

/// `n` as three decimal digits.
pub open spec fn three_digits(n: nat) -> Seq<char>
    recommends
        n < 1000,
{
    seq![digit(n / 100), digit((n / 10) % 10), digit(n % 10)]
}

/// `n` in decimal notation, its digits in groups of three from the right
/// with a comma between the groups.
pub open spec fn grouped(n: nat) -> Seq<char>
    decreases n,
{
    if n < 1000 {
        decimal(n)
    } else {
        grouped(n / 1000) + seq![','] + three_digits(n % 1000)
    }
}

/// `format_num::NumberFormat::format` with the pattern `,d`: decimal
/// notation with a comma as the group separator. The crate takes the number
/// as a float, into which a `u32` goes without loss, prints it without
/// fraction, and puts a comma before every third digit from the right, with
/// no sign, padding or width.
#[verifier::external_body]
fn format_number(pattern: &str, value: u32) -> (out: String)
    requires
        pattern@ == ",d"@,
    ensures
        out@ == grouped(value as nat),
{
    format_num::NumberFormat::new().format(pattern, value)
}

/// `n` with a comma between its thousands.
pub fn with_commas(n: u32) -> (out: String)
    ensures
        out@ == grouped(n as nat),
{
    format_number(",d", n)
}

/// `n` in decimal notation.
pub fn to_decimal(n: u32) -> (out: String)
    ensures
        out@ == decimal(n as nat),
{
    let mut digits: Vec<char> = Vec::new();
    let mut rest: u32 = n;
    // The digits from the right, the last one first.
    while rest >= 10
        invariant
            forall|k: int| 0 <= k < digits.len() ==> '0' <= #[trigger] digits@[k] <= '9',
            decimal(n as nat) == decimal(rest as nat) + digits@.reverse(),
        decreases rest,
    {
        let d: u8 = (rest % 10) as u8;
        let c: char = (48u8 + d) as char;
        proof {
            let ghost before = digits@;
            assert(c == digit((rest % 10) as nat));
            assert(decimal(rest as nat) == decimal((rest / 10) as nat).push(c));
            assert(before.push(c).reverse() == seq![c] + before.reverse());
            assert(decimal((rest / 10) as nat).push(c) + before.reverse() == decimal(
                (rest / 10) as nat,
            ) + (seq![c] + before.reverse()));
        }
        digits.push(c);
        rest = rest / 10;
    }
    let mut out = String::new();
    out.push((48u8 + (rest as u8)) as char);
    let mut i: usize = digits.len();
    while i > 0
        invariant
            i <= digits.len(),
            out@ == decimal(rest as nat) + digits@.reverse().take(digits.len() - i),
        decreases i,
    {
        i -= 1;
        proof {
            let r = digits@.reverse();
            assert(r.take(digits.len() - i) == r.take(digits.len() - i - 1).push(digits@[i as int]));
        }
        out.push(digits[i]);
    }
    assert(digits@.reverse().take(digits.len() as int) == digits@.reverse());
    out
}

} // verus!
