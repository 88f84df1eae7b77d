//! Decimal numbers and 24-bit ANSI foreground styling.
use vstd::prelude::*;

verus! {

/// A color as red, green and blue channels.
pub type Rgb = (u8, u8, u8);

/// The decimal digit `d`, for `d < 10`.
pub open spec fn digit_text(d: nat) -> Seq<char> {
    if d == 0 {
        "0"@
    } else if d == 1 {
        "1"@
    } else if d == 2 {
        "2"@
    } else if d == 3 {
        "3"@
    } else if d == 4 {
        "4"@
    } else if d == 5 {
        "5"@
    } else if d == 6 {
        "6"@
    } else if d == 7 {
        "7"@
    } else if d == 8 {
        "8"@
    } else {
        "9"@
    }
}

/// `n` written in decimal, without leading zeros.
pub open spec fn decimal(n: nat) -> Seq<char>
    decreases n,
{
    if n < 10 {
        digit_text(n)
    } else {
        decimal(n / 10) + digit_text(n % 10)
    }
}

/// `text` between the escape that sets the foreground to `c` and the reset escape.
pub open spec fn styled(c: Rgb, text: Seq<char>) -> Seq<char> {
    "\x1b[38;2;"@ + decimal(c.0 as nat) + ";"@ + decimal(c.1 as nat) + ";"@ + decimal(c.2 as nat) + "m"@
        + text + "\x1b[0m"@
}

fn digit_str(d: u8) -> (r: &'static str)
    requires
        d < 10,
    ensures
        r@ == digit_text(d as nat),
{
    if d == 0 {
        "0"
    } else if d == 1 {
        "1"
    } else if d == 2 {
        "2"
    } else if d == 3 {
        "3"
    } else if d == 4 {
        "4"
    } else if d == 5 {
        "5"
    } else if d == 6 {
        "6"
    } else if d == 7 {
        "7"
    } else if d == 8 {
        "8"
    } else {
        "9"
    }
}

/// Appends `n` in decimal to `out`.
pub fn push_decimal(out: &mut String, n: u128)
    ensures
        final(out)@ == old(out)@ + decimal(n as nat),
    decreases n,
{
    if n >= 10 {
        push_decimal(out, n / 10);
    }
    out.append(digit_str((n % 10) as u8));
    assert(out@ =~= old(out)@ + decimal(n as nat));
}

/// Appends `text` styled with the foreground color `c` to `out`.
pub fn push_styled(out: &mut String, c: Rgb, text: &str)
    ensures
        final(out)@ == old(out)@ + styled(c, text@),
{
    out.append("\x1b[38;2;");
    push_decimal(out, c.0 as u128);
    out.append(";");
    push_decimal(out, c.1 as u128);
    out.append(";");
    push_decimal(out, c.2 as u128);
    out.append("m");
    out.append(text);
    out.append("\x1b[0m");
    assert(out@ =~= old(out)@ + styled(c, text@));
}

} // verus!
