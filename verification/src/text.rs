//! Numbers in messages.
use vstd::prelude::*;

verus! {

/// The text of a decimal digit.
pub open spec fn digit(d: nat) -> Seq<char> {
    if d == 0 {
        "0"@
    } else if d == 1 {
        "1"@
    } else if d == 2 {
        "2"@
    } else if d == 3 {
        "3"@
    } else if d == 4 {
        "4"@
    } else if d == 5 {
        "5"@
    } else if d == 6 {
        "6"@
    } else if d == 7 {
        "7"@
    } else if d == 8 {
        "8"@
    } else {
        "9"@
    }
}

/// `n` in decimal, without leading zeros.
pub open spec fn decimal(n: nat) -> Seq<char>
    decreases n,
{
    if n < 10 {
        digit(n)
    } else {
        decimal(n / 10) + digit(n % 10)
    }
}

/// The text of a decimal digit.
fn digit_text(d: usize) -> (s: &'static str)
    requires
        d < 10,
    ensures
        s@ == digit(d as nat),
{
    match d {
        0 => "0",
        1 => "1",
        2 => "2",
        3 => "3",
        4 => "4",
        5 => "5",
        6 => "6",
        7 => "7",
        8 => "8",
        _ => "9",
    }
}

/// `n` in decimal.
pub(crate) fn decimal_text(n: usize) -> (s: String)
    ensures
        s@ == decimal(n as nat),
    decreases n,
{
    if n < 10 {
        digit_text(n).to_owned()
    } else {
        decimal_text(n / 10).concat(digit_text(n % 10))
    }
}

/// The message that `attempted` bytes did not fit where `len` of `capacity` bytes
/// were used: `head`, the number attempted, `middle`, and the fill.
pub open spec fn full_text(
    head: Seq<char>,
    middle: Seq<char>,
    attempted: nat,
    len: nat,
    capacity: nat,
) -> Seq<char> {
    head + decimal(attempted) + middle + decimal(len) + "/"@ + decimal(capacity) + " used"@
}

/// The message that [`full_text`] describes.
pub(crate) fn full_message(
    head: &str,
    middle: &str,
    attempted: usize,
    len: usize,
    capacity: usize,
) -> (s: String)
    ensures
        s@ == full_text(head@, middle@, attempted as nat, len as nat, capacity as nat),
{
    let mut s = head.to_owned();
    s.append(decimal_text(attempted).as_str());
    s.append(middle);
    s.append(decimal_text(len).as_str());
    s.append("/");
    s.append(decimal_text(capacity).as_str());
    s.append(" used");
    s
}

} // verus!
