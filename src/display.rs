//! Text forms of report values for a terminal.
use vstd::prelude::*;
use crate::text::string_of;

verus! {

/// Prepares the display. The terminal needs no setup of its own.
pub fn init() {
}

pub open spec fn digit_char(d: nat) -> char {
    ((48 + d) as u8) as char
}

/// `n` in decimal, without leading zeros.
pub open spec fn decimal(n: nat) -> Seq<char>
    decreases n,
{
    if n < 10 {
        seq![digit_char(n)]
    } else {
        decimal(n / 10).push(digit_char(n % 10))
    }
}

/// `n` in decimal, padded with a zero to at least two digits.
pub open spec fn two_digits(n: nat) -> Seq<char> {
    if n < 10 {
        seq!['0', digit_char(n)]
    } else {
        decimal(n)
    }
}

/// `secs` as hours, minutes and seconds: `HH:MM:SS`, where the hours may take
/// more than two digits.
pub open spec fn clock_text(secs: nat) -> Seq<char> {
    two_digits(secs / 3600) + seq![':'] + two_digits((secs % 3600) / 60) + seq![':'] + two_digits(
        secs % 60,
    )
}

fn push_decimal(out: &mut Vec<char>, n: u64)
    ensures
        final(out)@ == old(out)@ + decimal(n as nat),
    decreases n,
{
    if n < 10 {
        out.push(((48 + n) as u8) as char);
    } else {
        push_decimal(out, n / 10);
        out.push(((48 + n % 10) as u8) as char);
    }
}

fn push_two_digits(out: &mut Vec<char>, n: u64)
    ensures
        final(out)@ == old(out)@ + two_digits(n as nat),
{
    if n < 10 {
        out.push('0');
        out.push(((48 + n) as u8) as char);
    } else {
        push_decimal(out, n);
    }
}

/// Writes a number of seconds as `HH:MM:SS`.
pub fn nicen_seconds(secs: u64) -> (r: String)
    ensures
        r@ == clock_text(secs as nat),
{
    let hours: u64 = secs / 3600;
    let minutes: u64 = (secs % 3600) / 60;
    let seconds: u64 = (secs % 3600) % 60;
    let mut out: Vec<char> = Vec::new();
    push_two_digits(&mut out, hours);
    out.push(':');
    push_two_digits(&mut out, minutes);
    out.push(':');
    push_two_digits(&mut out, seconds);
    assert((secs as nat % 3600) % 60 == secs as nat % 60) by (nonlinear_arith);
    assert(out@ =~= clock_text(secs as nat));
    string_of(&out)
}

} // verus!
