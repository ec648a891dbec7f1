//! The bar's clock: `HH:MM:SS` of the UTC time of day.
use vstd::prelude::*;

use crate::wm::bar::Align;

verus! {

/// The decimal digit character of `d`.
pub open spec fn digit_char(d: nat) -> char {
    (48 + d) as char
}

/// `n` as two decimal digits, zero-padded.
pub open spec fn two_digits(n: nat) -> Seq<char> {
    seq![digit_char(n / 10), digit_char(n % 10)]
}

/// The clock text for `secs` seconds since the Unix epoch: hours, minutes
/// and seconds of the UTC day, each as two digits, separated by colons.
pub open spec fn clock_text(secs: nat) -> Seq<char> {
    two_digits((secs / 3600) % 24) + seq![':'] + two_digits((secs / 60) % 60) + seq![':']
        + two_digits(secs % 60)
}

fn digit_str(d: u64) -> (r: &'static str)
    requires
        d < 10,
    ensures
        r@ == seq![digit_char(d as nat)],
{
    proof {
        reveal_strlit("0");
        reveal_strlit("1");
        reveal_strlit("2");
        reveal_strlit("3");
        reveal_strlit("4");
        reveal_strlit("5");
        reveal_strlit("6");
        reveal_strlit("7");
        reveal_strlit("8");
        reveal_strlit("9");
    }
    if d == 0 {
        "0"
    } else if d == 1 {
        "1"
    } else if d == 2 {
        "2"
    } else if d == 3 {
        "3"
    } else if d == 4 {
        "4"
    } else if d == 5 {
        "5"
    } else if d == 6 {
        "6"
    } else if d == 7 {
        "7"
    } else if d == 8 {
        "8"
    } else {
        "9"
    }
}

fn push_two_digits(s: &mut String, n: u64)
    requires
        n < 100,
    ensures
        final(s)@ == old(s)@ + two_digits(n as nat),
{
    s.append(digit_str(n / 10));
    s.append(digit_str(n % 10));
    proof {
        assert(old(s)@ + seq![digit_char((n / 10) as nat)] + seq![digit_char((n % 10) as nat)]
            =~= old(s)@ + two_digits(n as nat));
    }
}

/// The clock widget.
pub struct ClockWidget {
    text: String,
}

impl View for ClockWidget {
    type V = Seq<char>;

    closed spec fn view(&self) -> Seq<char> {
        self.text@
    }
}

impl ClockWidget {
    /// A clock showing nothing yet.
    pub fn new() -> (r: Self)
        ensures
            r@ == Seq::<char>::empty(),
    {
        ClockWidget { text: String::new() }
    }

    /// The text shown.
    pub fn text(&self) -> (r: &str)
        ensures
            r@ == self@,
    {
        self.text.as_str()
    }

    /// The clock sits at the right of the bar.
    pub fn align(&self) -> (r: Align)
        ensures
            r == Align::Right,
    {
        Align::Right
    }

    /// The clock's width in pixels.
    pub fn width(&self) -> (r: u32)
        ensures
            r == 100,
    {
        100
    }

    /// Shows the time of day of `secs` seconds since the Unix epoch.
    pub fn update_time(&mut self, secs: u64)
        ensures
            final(self)@ == clock_text(secs as nat),
    {
        let mut t = String::new();
        push_two_digits(&mut t, (secs / 3600) % 24);
        proof {
            reveal_strlit(":");
        }
        t.append(":");
        push_two_digits(&mut t, (secs / 60) % 60);
        t.append(":");
        push_two_digits(&mut t, secs % 60);
        self.text = t;
    }
}

/// The clock shows the same text a day later.
pub proof fn law_clock_daily(secs: nat)
    ensures
        clock_text(secs + 86400) == clock_text(secs),
{
    let s = secs as int;
    assert((s + 86400) / 3600 == s / 3600 + 24) by (nonlinear_arith);
    assert((s / 3600 + 24) % 24 == (s / 3600) % 24) by (nonlinear_arith);
    assert((s + 86400) / 60 == s / 60 + 1440) by (nonlinear_arith);
    assert((s / 60 + 1440) % 60 == (s / 60) % 60) by (nonlinear_arith);
    assert((s + 86400) % 60 == s % 60) by (nonlinear_arith);
}

/// The clock text is eight characters, `HH:MM:SS`, whose digits read back
/// as the hour, minute and second of the day.
pub proof fn law_clock_reads_back(secs: nat)
    ensures
        clock_text(secs).len() == 8,
        clock_text(secs)[2] == ':' && clock_text(secs)[5] == ':',
        ((clock_text(secs)[0] as int) - 48) * 10 + ((clock_text(secs)[1] as int) - 48) == (secs
            / 3600) % 24,
        ((clock_text(secs)[3] as int) - 48) * 10 + ((clock_text(secs)[4] as int) - 48) == (secs
            / 60) % 60,
        ((clock_text(secs)[6] as int) - 48) * 10 + ((clock_text(secs)[7] as int) - 48) == secs
            % 60,
{
    let t = clock_text(secs);
    let h = (secs / 3600) % 24;
    let m = (secs / 60) % 60;
    let s = secs % 60;
    assert(h / 10 < 10 && m / 10 < 10 && s / 10 < 10);
    assert(t[0] == digit_char(h / 10) && t[1] == digit_char(h % 10));
    assert(t[3] == digit_char(m / 10) && t[4] == digit_char(m % 10));
    assert(t[6] == digit_char(s / 10) && t[7] == digit_char(s % 10));
    assert((h / 10) * 10 + h % 10 == h) by (nonlinear_arith);
    assert((m / 10) * 10 + m % 10 == m) by (nonlinear_arith);
    assert((s / 10) * 10 + s % 10 == s) by (nonlinear_arith);
}

} // verus!
