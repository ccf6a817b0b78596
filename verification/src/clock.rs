//! **The world clock's words**: the three running speeds and how a
//! world-minute is printed — day, hour and minute, days counted from one.

use vstd::prelude::*;
use crate::text::{digit_char, nat_digits, push_u64};

verus! {

/// The three running speeds. Pause is a separate flag, so resuming returns
/// to the speed the player last chose.
#[derive(Clone, Copy, Debug, PartialEq, Eq, Structural)]
pub enum Rate {
    /// 1x.
    X1,
    /// 2x.
    X2,
    /// 4x.
    X4,
}

/// A speed chip's label.
pub open spec fn rate_label(r: Rate) -> Seq<char> {
    match r {
        Rate::X1 => "1x"@,
        Rate::X2 => "2x"@,
        Rate::X4 => "4x"@,
    }
}

impl Rate {
    /// **The chip's label.**
    pub fn label(self) -> (s: &'static str)
        ensures
            s@ == rate_label(self),
    {
        proof {
            reveal_strlit("1x");
            reveal_strlit("2x");
            reveal_strlit("4x");
        }
        match self {
            Rate::X1 => "1x",
            Rate::X2 => "2x",
            Rate::X4 => "4x",
        }
    }
}

/// A number below a hundred as two digits, zero first.
pub open spec fn two_digits(n: nat) -> Seq<char> {
    seq![digit_char((n / 10) as int), digit_char((n % 10) as int)]
}

/// How a world-minute is printed.
pub open spec fn clock_stamp(minutes: u64) -> Seq<char> {
    "d"@ + nat_digits((minutes / 1440 + 1) as nat) + " "@ + two_digits(((minutes % 1440) / 60) as nat) + ":"@
        + two_digits((minutes % 60) as nat)
}

fn push_two_digits(out: &mut String, n: u64)
    requires
        n < 100,
    ensures
        final(out)@ == old(out)@ + two_digits(n as nat),
{
    if n < 10 {
        proof { reveal_strlit("0"); }
        out.append("0");
        push_u64(out, n);
        assert(nat_digits(n as nat) =~= seq![digit_char((n % 10) as int)]);
    } else {
        push_u64(out, n);
        assert(nat_digits(n as nat) =~= nat_digits((n / 10) as nat).push(digit_char((n % 10) as int)));
        assert(nat_digits((n / 10) as nat) =~= seq![digit_char((n / 10) as int)]);
    }
    assert(out@ =~= old(out)@ + two_digits(n as nat)) by {
        if n < 10 {
            assert((n / 10) == 0);
        }
    }
}

/// **A world-minute as the clock readout and every log line print it**:
/// `d1 06:40` — day, hour, minute, days counted from one.
pub fn stamp(minutes: u64) -> (s: String)
    ensures
        s@ == clock_stamp(minutes),
{
    proof {
        reveal_strlit("d");
        reveal_strlit(" ");
        reveal_strlit(":");
    }
    let mut s = String::from_str("d");
    push_u64(&mut s, minutes / 1440 + 1);
    s.append(" ");
    push_two_digits(&mut s, (minutes % 1440) / 60);
    s.append(":");
    push_two_digits(&mut s, minutes % 60);
    s
}

} // verus!
