//! Spans of time, counted in whole nanoseconds.

use vstd::prelude::*;

verus! {

/// Nanoseconds in one second.
pub const NANOS_PER_SEC: u32 = 1_000_000_000;

/// Nanoseconds in one millisecond.
pub const NANOS_PER_MILLI: u32 = 1_000_000;

/// A non-negative span of time: whole seconds and the nanoseconds beyond them.
///
/// Its view is the span in nanoseconds. Two spans are equal exactly when
/// their views are.
#[derive(Clone, Copy, Debug, PartialEq, Eq, Hash, Structural)]
pub struct Duration {
    secs: u64,
    nanos: u32,
}

impl View for Duration {
    type V = nat;

    closed spec fn view(&self) -> nat {
        (self.secs as nat) * (NANOS_PER_SEC as nat) + (self.nanos as nat)
    }
}

/// The character that stands for a digit.
pub open spec fn digit_char(digit: nat) -> char {
    if digit == 0 {
        '0'
    } else if digit == 1 {
        '1'
    } else if digit == 2 {
        '2'
    } else if digit == 3 {
        '3'
    } else if digit == 4 {
        '4'
    } else if digit == 5 {
        '5'
    } else if digit == 6 {
        '6'
    } else if digit == 7 {
        '7'
    } else if digit == 8 {
        '8'
    } else {
        '9'
    }
}

/// A number in decimal, without leading zeros.
pub open spec fn decimal(number: nat) -> Seq<char>
    decreases number,
{
    if number < 10 {
        seq![digit_char(number)]
    } else {
        decimal(number / 10).push(digit_char(number % 10))
    }
}

/// A count of seconds as minutes and seconds: the minutes in decimal, a
/// colon, and the seconds beyond the minutes in two digits.
pub open spec fn mins_secs(seconds: nat) -> Seq<char> {
    decimal(seconds / 60) + seq![':', digit_char((seconds % 60) / 10), digit_char((seconds % 60) % 10)]
}

/// The text of one digit.
fn digit_text(digit: u64) -> (text: &'static str)
    requires
        digit < 10,
    ensures
        text@ == seq![digit_char(digit as nat)],
{
    proof {
        reveal_strlit("0");
        reveal_strlit("1");
        reveal_strlit("2");
        reveal_strlit("3");
        reveal_strlit("4");
        reveal_strlit("5");
        reveal_strlit("6");
        reveal_strlit("7");
        reveal_strlit("8");
        reveal_strlit("9");
    }
    let text = if digit == 0 {
        "0"
    } else if digit == 1 {
        "1"
    } else if digit == 2 {
        "2"
    } else if digit == 3 {
        "3"
    } else if digit == 4 {
        "4"
    } else if digit == 5 {
        "5"
    } else if digit == 6 {
        "6"
    } else if digit == 7 {
        "7"
    } else if digit == 8 {
        "8"
    } else {
        "9"
    };
    assert(text@ =~= seq![digit_char(digit as nat)]);
    text
}

/// Puts `number`, in decimal, at the end of `text`.
fn push_decimal(text: &mut String, number: u64)
    ensures
        final(text)@ == old(text)@ + decimal(number as nat),
    decreases number,
{
    if number >= 10 {
        push_decimal(text, number / 10);
    }
    let ghost before = text@;
    text.append(digit_text(number % 10));
    assert(text@ =~= before + seq![digit_char((number % 10) as nat)]);
    assert(text@ =~= old(text)@ + decimal(number as nat));
}

impl Duration {
    /// Every span in a running program is canonical: its nanoseconds stay
    /// below one second.
    #[verifier::type_invariant]
    pub closed spec fn canonical(self) -> bool {
        self.nanos < NANOS_PER_SEC
    }

    /// The longest span that can be held, in nanoseconds.
    pub open spec fn max_nanos() -> nat {
        (u64::MAX as nat) * (NANOS_PER_SEC as nat) + (NANOS_PER_SEC as nat - 1) as nat
    }

    /// A span of `secs` seconds and `nanos` nanoseconds; `None` where it
    /// would be longer than the longest span.
    pub fn new(secs: u64, nanos: u32) -> (r: Option<Duration>)
        ensures
            match r {
                Some(d) => d@ == secs as nat * NANOS_PER_SEC as nat + nanos as nat,
                None => secs as nat * NANOS_PER_SEC as nat + nanos as nat > Self::max_nanos(),
            },
    {
        let carry: u64 = (nanos / NANOS_PER_SEC) as u64;
        let rest: u32 = nanos % NANOS_PER_SEC;
        if secs > u64::MAX - carry {
            None
        } else {
            Some(Duration { secs: secs + carry, nanos: rest })
        }
    }

    /// A span of whole seconds.
    pub fn from_secs(secs: u64) -> (r: Duration)
        ensures
            r@ == secs as nat * NANOS_PER_SEC as nat,
    {
        Duration { secs, nanos: 0 }
    }

    /// A span of whole milliseconds.
    pub fn from_millis(millis: u64) -> (r: Duration)
        ensures
            r@ == millis as nat * NANOS_PER_MILLI as nat,
    {
        let sub: u32 = (millis % 1000) as u32;
        Duration { secs: millis / 1000, nanos: sub * NANOS_PER_MILLI }
    }

    /// The whole seconds in the span.
    pub fn as_secs(&self) -> (r: u64)
        ensures
            r as nat == self@ / (NANOS_PER_SEC as nat),
    {
        proof {
            use_type_invariant(self);
        }
        self.secs
    }

    /// The nanoseconds beyond the whole seconds.
    pub fn subsec_nanos(&self) -> (r: u32)
        ensures
            r as nat == self@ % (NANOS_PER_SEC as nat),
    {
        proof {
            use_type_invariant(self);
        }
        self.nanos
    }

    /// Whether this span is no longer than `other`.
    pub fn le(&self, other: &Duration) -> (r: bool)
        ensures
            r == (self@ <= other@),
    {
        proof {
            use_type_invariant(self);
            use_type_invariant(other);
        }
        self.secs < other.secs || (self.secs == other.secs && self.nanos <= other.nanos)
    }

    /// What is left of this span once `other` is taken away; `None` where
    /// `other` is the longer one.
    pub fn checked_sub(&self, other: &Duration) -> (r: Option<Duration>)
        ensures
            match r {
                Some(d) => other@ <= self@ && d@ == self@ - other@,
                None => self@ < other@,
            },
    {
        proof {
            use_type_invariant(self);
            use_type_invariant(other);
        }
        if self.secs < other.secs {
            None
        } else if self.nanos >= other.nanos {
            Some(Duration { secs: self.secs - other.secs, nanos: self.nanos - other.nanos })
        } else if self.secs == other.secs {
            None
        } else {
            Some(
                Duration {
                    secs: self.secs - other.secs - 1,
                    nanos: self.nanos + (NANOS_PER_SEC - other.nanos),
                },
            )
        }
    }

    /// The span as minutes and seconds, for a progress display: the whole
    /// minutes in decimal, a colon, and the seconds beyond them in two
    /// digits. Parts of a second are left out.
    pub fn string_mins_secs(&self) -> (text: String)
        ensures
            text@ == mins_secs(self@ / (NANOS_PER_SEC as nat)),
    {
        let duration_int = self.as_secs();
        let min: u64 = duration_int / 60;
        let sec: u64 = duration_int % 60;
        let mut text = String::new();
        push_decimal(&mut text, min);
        proof {
            reveal_strlit(":");
        }
        text.append(":");
        assert(text@ =~= decimal(min as nat) + seq![':']);
        text.append(digit_text(sec / 10));
        text.append(digit_text(sec % 10));
        assert(text@ =~= mins_secs(duration_int as nat));
        text
    }

    /// Spans are equal exactly when they last equally long.
    pub proof fn lemma_eq_view(self, other: Duration)
        requires
            self.canonical(),
            other.canonical(),
        ensures
            (self == other) <==> (self@ == other@),
    {
    }
}

} // verus!
