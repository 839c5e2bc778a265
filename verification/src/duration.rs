//! Elapsed time as text, for reports of progress.

use vstd::prelude::*;

verus! {

/// The character of a decimal digit.
pub open spec fn digit(d: nat) -> char {
    if d == 0 {
        '0'
    } else if d == 1 {
        '1'
    } else if d == 2 {
        '2'
    } else if d == 3 {
        '3'
    } else if d == 4 {
        '4'
    } else if d == 5 {
        '5'
    } else if d == 6 {
        '6'
    } else if d == 7 {
        '7'
    } else if d == 8 {
        '8'
    } else {
        '9'
    }
}

/// The decimal digits of `n`, without leading zeros.
pub open spec fn decimal(n: nat) -> Seq<char>
    decreases n,
{
    if n < 10 {
        seq![digit(n)]
    } else {
        decimal(n / 10).push(digit(n % 10))
    }
}

/// The decimal digits of `n`, filled up with zeros on the left to `width`
/// characters. A longer number is not cut.
pub open spec fn padded(n: nat, width: nat) -> Seq<char> {
    let digits = decimal(n);
    if digits.len() >= width {
        digits
    } else {
        Seq::new((width - digits.len()) as nat, |i: int| '0') + digits
    }
}

/// The text of a duration of `secs` whole seconds and `millis` thousandths:
/// hours, minutes of the hour and seconds of the minute with two digits each,
/// and the thousandths with four, as in `01h:02m:03.0456s`.
pub open spec fn duration_text(secs: u64, millis: u32) -> Seq<char> {
    padded((secs / 60 / 60) as nat, 2) + seq!['h', ':'] + padded((secs / 60 % 60) as nat, 2) + seq!['m', ':']
        + padded((secs % 60) as nat, 2) + seq!['.'] + padded((millis % 1000) as nat, 4) + seq!['s']
}

fn digit_text(d: u64) -> (s: &'static str)
    requires
        d < 10,
    ensures
        s@ == seq![digit(d as nat)],
{
    proof {
        reveal_strlit("0");
        reveal_strlit("1");
        reveal_strlit("2");
        reveal_strlit("3");
        reveal_strlit("4");
        reveal_strlit("5");
        reveal_strlit("6");
        reveal_strlit("7");
        reveal_strlit("8");
        reveal_strlit("9");
    }
    let s = if d == 0 {
        "0"
    } else if d == 1 {
        "1"
    } else if d == 2 {
        "2"
    } else if d == 3 {
        "3"
    } else if d == 4 {
        "4"
    } else if d == 5 {
        "5"
    } else if d == 6 {
        "6"
    } else if d == 7 {
        "7"
    } else if d == 8 {
        "8"
    } else {
        "9"
    };
    assert(s@ =~= seq![digit(d as nat)]);
    s
}

fn digit_count(n: u64) -> (c: u64)
    ensures
        c == decimal(n as nat).len(),
        c == 1 || c <= n,
    decreases n,
{
    if n < 10 {
        1
    } else {
        digit_count(n / 10) + 1
    }
}

fn push_decimal(out: &mut String, n: u64)
    ensures
        final(out)@ == old(out)@ + decimal(n as nat),
    decreases n,
{
    if n >= 10 {
        push_decimal(out, n / 10);
    }
    out.append(digit_text(n % 10));
    proof {
        if n >= 10 {
            assert(out@ =~= old(out)@ + decimal((n / 10) as nat).push(digit((n % 10) as nat)));
        } else {
            assert(out@ =~= old(out)@ + seq![digit(n as nat)]);
        }
    }
}

fn push_padded(out: &mut String, n: u64, width: u64)
    ensures
        final(out)@ == old(out)@ + padded(n as nat, width as nat),
{
    let ghost start = out@;
    let count: u64 = digit_count(n);
    let mut i: u64 = count;
    proof {
        reveal_strlit("0");
    }
    while i < width
        invariant
            count <= i,
            count < width ==> i <= width,
            count >= width ==> i == count,
            "0"@ == seq!['0'],
            out@ =~= start + Seq::new((i - count) as nat, |k: int| '0'),
        decreases width - i,
    {
        out.append("0");
        i = i + 1;
    }
    let ghost fill = Seq::new((i - count) as nat, |k: int| '0');
    push_decimal(out, n);
    proof {
        assert(fill + decimal(n as nat) =~= padded(n as nat, width as nat));
        assert(out@ =~= start + (fill + decimal(n as nat)));
    }
}

/// Formats a duration of `secs` whole seconds and `millis` thousandths of a
/// second.
pub fn format_duration(secs: u64, millis: u32) -> (s: String)
    ensures
        s@ == duration_text(secs, millis),
{
    let milli: u64 = (millis % 1000) as u64;
    let sec: u64 = secs % 60;
    let min: u64 = (secs / 60) % 60;
    let hours: u64 = (secs / 60) / 60;
    proof {
        reveal_strlit("h:");
        reveal_strlit("m:");
        reveal_strlit(".");
        reveal_strlit("s");
    }
    let mut out = String::new();
    push_padded(&mut out, hours, 2);
    out.append("h:");
    push_padded(&mut out, min, 2);
    out.append("m:");
    push_padded(&mut out, sec, 2);
    out.append(".");
    push_padded(&mut out, milli, 4);
    out.append("s");
    proof {
        assert("h:"@ =~= seq!['h', ':']);
        assert("m:"@ =~= seq!['m', ':']);
        assert("."@ =~= seq!['.']);
        assert("s"@ =~= seq!['s']);
        assert(out@ =~= duration_text(secs, millis));
    }
    out
}

} // verus!
