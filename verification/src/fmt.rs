use vstd::prelude::*;

verus! {

/// The character for one decimal digit.
pub open spec fn dec_digit(d: nat) -> char {
    if d == 0 {
        '0'
    } else if d == 1 {
        '1'
    } else if d == 2 {
        '2'
    } else if d == 3 {
        '3'
    } else if d == 4 {
        '4'
    } else if d == 5 {
        '5'
    } else if d == 6 {
        '6'
    } else if d == 7 {
        '7'
    } else if d == 8 {
        '8'
    } else {
        '9'
    }
}

/// The decimal rendering of a number, most significant digit first, no
/// leading zeroes (a single zero for zero itself).
pub open spec fn dec_of(n: nat) -> Seq<char>
    decreases n,
{
    if n < 10 {
        seq![dec_digit(n)]
    } else {
        dec_of(n / 10).push(dec_digit(n % 10))
    }
}

fn push_digit(s: &mut String, d: u128)
    requires
        d < 10,
    ensures
        final(s)@ == old(s)@.push(dec_digit(d as nat)),
{
    let ch: &str = if d == 0 {
        "0"
    } else if d == 1 {
        "1"
    } else if d == 2 {
        "2"
    } else if d == 3 {
        "3"
    } else if d == 4 {
        "4"
    } else if d == 5 {
        "5"
    } else if d == 6 {
        "6"
    } else if d == 7 {
        "7"
    } else if d == 8 {
        "8"
    } else {
        "9"
    };
    proof {
        reveal_strlit("0");
        reveal_strlit("1");
        reveal_strlit("2");
        reveal_strlit("3");
        reveal_strlit("4");
        reveal_strlit("5");
        reveal_strlit("6");
        reveal_strlit("7");
        reveal_strlit("8");
        reveal_strlit("9");
        assert(ch@ =~= seq![dec_digit(d as nat)]);
    }
    let ghost before: Seq<char> = s@;
    s.append(ch);
    proof {
        assert(s@ =~= before.push(dec_digit(d as nat)));
    }
}

fn push_decimal(s: &mut String, n: u128)
    ensures
        final(s)@ == old(s)@ + dec_of(n as nat),
    decreases n,
{
    if n < 10 {
        let ghost before: Seq<char> = s@;
        push_digit(s, n);
        proof {
            assert(before.push(dec_digit(n as nat)) =~= before + dec_of(n as nat));
        }
    } else {
        let ghost before: Seq<char> = s@;
        push_decimal(s, n / 10);
        push_digit(s, n % 10);
        proof {
            assert((before + dec_of((n / 10) as nat)).push(dec_digit((n % 10) as nat)) =~= before
                + dec_of(n as nat));
        }
    }
}

/// Renders a number in decimal.
pub fn decimal_string(n: u128) -> (r: String)
    ensures
        r@ == dec_of(n as nat),
{
    let mut s = String::new();
    push_decimal(&mut s, n);
    proof {
        assert(Seq::<char>::empty() + dec_of(n as nat) =~= dec_of(n as nat));
    }
    s
}

/// Division rounded to the nearest integer, halves rounding up.
pub open spec fn round_div(n: nat, d: nat) -> nat
    recommends
        d > 0,
{
    (n + d / 2) / d
}

/// Two-digit zero-padded rendering of a fraction below one hundred.
pub open spec fn two_digits(n: nat) -> Seq<char>
    recommends
        n < 100,
{
    seq![dec_digit(n / 10), dec_digit(n % 10)]
}

/// The rendering of an elapsed time: plain nanoseconds below a
/// microsecond, rounded microseconds below a millisecond, rounded
/// milliseconds below a second, seconds with two decimals below a minute,
/// and whole minutes with rounded seconds above that.
pub open spec fn duration_chars(nanos: nat) -> Seq<char> {
    if nanos < 1_000 {
        dec_of(nanos) + "ns"@
    } else if nanos < 1_000_000 {
        dec_of(round_div(nanos, 1_000)) + "\u{b5}s"@
    } else if nanos < 1_000_000_000 {
        dec_of(round_div(nanos, 1_000_000)) + "ms"@
    } else if nanos < 60_000_000_000 {
        let centis = round_div(nanos, 10_000_000);
        dec_of(centis / 100) + "."@ + two_digits(centis % 100) + "s"@
    } else {
        let minutes = nanos / 60_000_000_000;
        let rem = nanos % 60_000_000_000;
        dec_of(minutes) + "m "@ + dec_of(round_div(rem, 1_000_000_000)) + "s"@
    }
}

/// Renders an elapsed time measured in nanoseconds, choosing the unit by
/// the duration's magnitude.
pub fn format_duration(nanos: u128) -> (r: String)
    ensures
        r@ == duration_chars(nanos as nat),
{
    if nanos < 1_000 {
        let mut s = decimal_string(nanos);
        s.append("ns");
        proof {
            assert(s@ =~= duration_chars(nanos as nat));
        }
        s
    } else if nanos < 1_000_000 {
        let mut s = decimal_string((nanos + 500) / 1_000);
        s.append("\u{b5}s");
        proof {
            assert(s@ =~= duration_chars(nanos as nat));
        }
        s
    } else if nanos < 1_000_000_000 {
        let mut s = decimal_string((nanos + 500_000) / 1_000_000);
        s.append("ms");
        proof {
            assert(s@ =~= duration_chars(nanos as nat));
        }
        s
    } else if nanos < 60_000_000_000 {
        let centis = (nanos + 5_000_000) / 10_000_000;
        let mut s = decimal_string(centis / 100);
        s.append(".");
        let frac = centis % 100;
        push_digit(&mut s, frac / 10);
        push_digit(&mut s, frac % 10);
        s.append("s");
        proof {
            assert(s@ =~= duration_chars(nanos as nat));
        }
        s
    } else {
        let minutes = nanos / 60_000_000_000;
        let rem = nanos % 60_000_000_000;
        let mut s = decimal_string(minutes);
        s.append("m ");
        let mut tail = decimal_string((rem + 500_000_000) / 1_000_000_000);
        tail.append("s");
        s.append(tail.as_str());
        proof {
            assert(s@ =~= duration_chars(nanos as nat));
        }
        s
    }
}

/// The textual content of the final summary line.
pub open spec fn summary_chars(failures: nat, successes: nat) -> Seq<char> {
    dec_of(failures) + " failed and "@ + dec_of(successes) + " succeeded"@
}

/// Renders the final tally: how many cases failed and how many succeeded.
pub fn summary_message(failures: usize, successes: usize) -> (r: String)
    ensures
        r@ == summary_chars(failures as nat, successes as nat),
{
    let mut s = decimal_string(failures as u128);
    s.append(" failed and ");
    let tail = decimal_string(successes as u128);
    s.append(tail.as_str());
    s.append(" succeeded");
    proof {
        assert(s@ =~= summary_chars(failures as nat, successes as nat));
    }
    s
}

} // verus!
