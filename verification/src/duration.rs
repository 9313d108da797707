//! Spans of time as the debug displays read them: whole microseconds.
use vstd::prelude::*;
use crate::text::{decimal, push_char, push_decimal_u128, push_str};

verus! {

/// A span of time, kept to the microsecond.
#[derive(Debug, Clone, Copy, PartialEq, Eq, Structural)]
pub struct Duration {
    micros: u128,
}

impl View for Duration {
    type V = nat;

    /// The span in whole microseconds.
    closed spec fn view(&self) -> nat {
        self.micros as nat
    }
}

impl Duration {
    pub fn from_micros(micros: u64) -> (d: Self)
        ensures
            d@ == micros as nat,
    {
        Duration { micros: micros as u128 }
    }

    pub fn from_millis(millis: u64) -> (d: Self)
        ensures
            d@ == millis as nat * 1000,
    {
        Duration { micros: millis as u128 * 1000 }
    }

    pub fn from_secs(secs: u64) -> (d: Self)
        ensures
            d@ == secs as nat * 1_000_000,
    {
        Duration { micros: secs as u128 * 1_000_000 }
    }

    /// The span in whole microseconds.
    pub fn as_micros(&self) -> (m: u128)
        ensures
            m as nat == self@,
    {
        self.micros
    }
}

/// Two decimal digits, with a leading zero below ten.
pub open spec fn two_digits(n: nat) -> Seq<char> {
    if n < 10 { seq!['0'] + decimal(n) } else { decimal(n) }
}

/// A span as `123µs`, `1.50ms` or `2.00s`: two decimals, truncated.
pub open spec fn duration_text(micros: nat) -> Seq<char> {
    if micros < 1000 {
        decimal(micros) + "µs"@
    } else if micros < 1_000_000 {
        decimal(micros / 1000) + "."@ + two_digits((micros % 1000) / 10) + "ms"@
    } else {
        decimal(micros / 1_000_000) + "."@ + two_digits((micros % 1_000_000) / 10_000) + "s"@
    }
}

fn push_two_digits(s: &mut String, n: u128)
    requires
        n < 100,
    ensures
        final(s)@ == old(s)@ + two_digits(n as nat),
{
    if n < 10 {
        push_char(s, '0');
    }
    push_decimal_u128(s, n);
    assert(s@ =~= old(s)@ + two_digits(n as nat)) by {
        if n < 10 {
            assert(s@ =~= old(s)@ + seq!['0'] + decimal(n as nat));
        }
    }
}

/// Formats a span in human-readable form.
pub fn format_duration(d: Duration) -> (s: String)
    ensures
        s@ == duration_text(d@),
{
    let micros = d.as_micros();
    let mut s = String::new();
    if micros < 1000 {
        push_decimal_u128(&mut s, micros);
        push_str(&mut s, "µs");
    } else if micros < 1_000_000 {
        push_decimal_u128(&mut s, micros / 1000);
        push_str(&mut s, ".");
        push_two_digits(&mut s, (micros % 1000) / 10);
        push_str(&mut s, "ms");
    } else {
        push_decimal_u128(&mut s, micros / 1_000_000);
        push_str(&mut s, ".");
        push_two_digits(&mut s, (micros % 1_000_000) / 10_000);
        push_str(&mut s, "s");
    }
    assert(s@ =~= duration_text(d@));
    s
}

} // verus!
