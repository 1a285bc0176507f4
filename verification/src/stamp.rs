//! The instant at which a task was created, and the clock that gives it.

use vstd::prelude::*;

verus! {

/// `std::time::SystemTime`, carried from the clock to the subtraction of the epoch.
#[verifier::external_type_specification]
#[verifier::external_body]
pub struct ExSystemTime(std::time::SystemTime);

/// `std::time::SystemTimeError`: what `duration_since` gives for a time before the epoch.
#[verifier::external_type_specification]
#[verifier::external_body]
pub struct ExSystemTimeError(std::time::SystemTimeError);

/// `SystemTime::now` reads the system clock. Nothing is claimed of what it returns.
pub assume_specification[ std::time::SystemTime::now ]() -> (r: std::time::SystemTime);

/// `SystemTime::duration_since` gives the time elapsed between `earlier` and `t`,
/// or an error where `earlier` is the later one. Nothing is claimed of either.
pub assume_specification[ std::time::SystemTime::duration_since ](
    t: &std::time::SystemTime,
    earlier: std::time::SystemTime,
) -> (r: Result<std::time::Duration, std::time::SystemTimeError>);

/// `Duration::as_nanos` gives a duration in whole nanoseconds. Nothing is claimed of
/// the number.
pub assume_specification[ std::time::Duration::as_nanos ](d: &std::time::Duration) -> (r: u128);

/// The constant `std::time::UNIX_EPOCH`.
#[verifier::external_body]
fn unix_epoch() -> (r: std::time::SystemTime)
{
    std::time::UNIX_EPOCH
}

/// An instant, in whole nanoseconds since the Unix epoch. Instants are ordered
/// as their numbers are.
#[derive(Clone, Copy, Debug, PartialEq, Eq, Structural)]
pub struct Timestamp {
    pub nanos: u128,
}

/// The nanoseconds of one second.
pub const NANOS_PER_SEC: u128 = 1_000_000_000;

/// The character for one decimal digit.
pub open spec fn digit(d: int) -> char {
    ((48 + d) as u8) as char
}

/// `n` in decimal, without leading zeros.
pub open spec fn decimal(n: nat) -> Seq<char>
    decreases n,
{
    if n < 10 {
        seq![digit(n as int)]
    } else {
        decimal(n / 10).push(digit((n % 10) as int))
    }
}

/// The digits of `f` over `10 * p`, as a decimal fraction, from the digit that
/// counts `p` on and up to the last digit that is not zero. `p` is a power of ten.
pub open spec fn fraction(f: nat, p: nat) -> Seq<char>
    decreases p,
{
    if f == 0 || p == 0 {
        Seq::empty()
    } else {
        seq![digit((f / p) as int)] + fraction(f % p, p / 10)
    }
}

/// An instant as decimal seconds: the whole seconds, then, where the instant
/// does not fall on a whole second, a point and the digits of the fraction.
pub open spec fn seconds_text(nanos: nat) -> Seq<char> {
    let whole = decimal(nanos / (NANOS_PER_SEC as nat));
    let part = nanos % (NANOS_PER_SEC as nat);
    if part == 0 {
        whole
    } else {
        whole.push('.') + fraction(part, 100_000_000)
    }
}

fn digit_text(d: u128) -> (r: &'static str)
    requires
        d < 10,
    ensures
        r@ == seq![digit(d as int)],
{
    proof {
        reveal_strlit("0");
        reveal_strlit("1");
        reveal_strlit("2");
        reveal_strlit("3");
        reveal_strlit("4");
        reveal_strlit("5");
        reveal_strlit("6");
        reveal_strlit("7");
        reveal_strlit("8");
        reveal_strlit("9");
    }
    let r = if d == 0 {
        "0"
    } else if d == 1 {
        "1"
    } else if d == 2 {
        "2"
    } else if d == 3 {
        "3"
    } else if d == 4 {
        "4"
    } else if d == 5 {
        "5"
    } else if d == 6 {
        "6"
    } else if d == 7 {
        "7"
    } else if d == 8 {
        "8"
    } else {
        "9"
    };
    r
}

fn decimal_text(n: u128) -> (r: String)
    ensures
        r@ == decimal(n as nat),
    decreases n,
{
    if n < 10 {
        digit_text(n).to_owned()
    } else {
        let mut s = decimal_text(n / 10);
        s.append(digit_text(n % 10));
        s
    }
}

impl Timestamp {
    /// The epoch itself.
    pub fn zero() -> (r: Timestamp)
        ensures
            r.nanos == 0,
    {
        Timestamp { nanos: 0 }
    }

    /// The instant `nanos` nanoseconds after the epoch.
    pub fn from_nanos(nanos: u128) -> (r: Timestamp)
        ensures
            r.nanos == nanos,
    {
        Timestamp { nanos }
    }

    /// The present instant by the system clock; the epoch where the clock
    /// stands before it.
    pub fn now() -> (r: Timestamp)
    {
        let now = std::time::SystemTime::now();
        let elapsed = match now.duration_since(unix_epoch()) {
            Ok(d) => Some(d.as_nanos()),
            Err(_) => None,
        };
        Timestamp::since_epoch(elapsed)
    }

    /// The instant for what a clock says of the time elapsed since the
    /// epoch: so many nanoseconds after the epoch, and the epoch itself
    /// where the clock stands before it and gives none.
    pub fn since_epoch(elapsed: Option<u128>) -> (r: Timestamp)
        ensures
            r.nanos == match elapsed {
                Some(nanos) => nanos,
                None => 0,
            },
    {
        match elapsed {
            Some(nanos) => Timestamp { nanos },
            None => Timestamp { nanos: 0 },
        }
    }

    /// Nanoseconds since the epoch.
    pub fn nanos(&self) -> (r: u128)
        ensures
            r == self.nanos,
    {
        self.nanos
    }

    /// The instant as decimal seconds since the epoch.
    pub open spec fn text(self) -> Seq<char> {
        seconds_text(self.nanos as nat)
    }

    /// The instant written as decimal seconds since the epoch, as it enters
    /// a task's identifier.
    pub fn to_text(&self) -> (r: String)
        ensures
            r@ == self.text(),
    {
        let mut out = decimal_text(self.nanos / NANOS_PER_SEC);
        let part = self.nanos % NANOS_PER_SEC;
        if part != 0 {
            proof {
                reveal_strlit(".");
            }
            out.append(".");
            let ghost head = out@;
            let mut rest: u128 = part;
            let mut p: u128 = 100_000_000;
            while rest != 0 && p != 0
                invariant
                    p == 0 || p == 1 || p == 10 || p == 100 || p == 1_000 || p == 10_000 || p
                        == 100_000 || p == 1_000_000 || p == 10_000_000 || p == 100_000_000,
                    rest < 10 * p || rest == 0,
                    out@ + fraction(rest as nat, p as nat) == head + fraction(
                        part as nat,
                        100_000_000,
                    ),
                decreases p,
            {
                let d = rest / p;
                assert(d < 10) by (nonlinear_arith)
                    requires
                        rest < 10 * p,
                        p > 0,
                        d == rest / p,
                ;
                out.append(digit_text(d));
                rest = rest % p;
                p = p / 10;
            }
        }
        out
    }
}

} // verus!
