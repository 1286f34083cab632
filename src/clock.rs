//! Text of a login time: `YYYY-MM-DD HH:MM:SS`, with an optional
//! `+HH:MM:SS` offset.
use vstd::prelude::*;
use vstd::string::*;

verus! {

/// Largest offset from UTC, in seconds, that a calendar time may carry
/// (25 hours, 59 minutes and 59 seconds).
pub const MAX_OFFSET_SECONDS: i32 = 93599;

/// A point in time as read off a calendar and a clock, together with the
/// offset from UTC in which it is expressed.
#[derive(Clone, Copy, Debug, PartialEq, Eq, Structural)]
pub struct CivilTime {
    pub year: i32,
    pub month: u8,
    pub day: u8,
    pub hour: u8,
    pub minute: u8,
    pub second: u8,
    pub offset_seconds: i32,
}

/// The decimal digit `d` as a character.
pub open spec fn digit(d: int) -> char {
    if d == 0 {
        '0'
    } else if d == 1 {
        '1'
    } else if d == 2 {
        '2'
    } else if d == 3 {
        '3'
    } else if d == 4 {
        '4'
    } else if d == 5 {
        '5'
    } else if d == 6 {
        '6'
    } else if d == 7 {
        '7'
    } else if d == 8 {
        '8'
    } else {
        '9'
    }
}

/// `n` (below 100) written with two digits.
pub open spec fn two_digits(n: int) -> Seq<char> {
    seq![digit(n / 10), digit(n % 10)]
}

/// `n` (below 10000) written with four digits.
pub open spec fn four_digits(n: int) -> Seq<char> {
    seq![digit(n / 1000), digit(n / 100 % 10), digit(n / 10 % 10), digit(n % 10)]
}

/// `YYYY-MM-DD HH:MM:SS` of a calendar time.
pub open spec fn clock_text(t: CivilTime) -> Seq<char> {
    four_digits(t.year as int) + seq!['-'] + two_digits(t.month as int) + seq!['-']
        + two_digits(t.day as int) + seq![' '] + two_digits(t.hour as int) + seq![':']
        + two_digits(t.minute as int) + seq![':'] + two_digits(t.second as int)
}

/// `+HH:MM:SS` or `-HH:MM:SS` of an offset given in seconds.
pub open spec fn offset_text(o: int) -> Seq<char> {
    let a = if o < 0 {
        -o
    } else {
        o
    };
    seq![if o < 0 { '-' } else { '+' }] + two_digits(a / 3600) + seq![':'] + two_digits(
        a % 3600 / 60,
    ) + seq![':'] + two_digits(a % 60)
}

/// Clock time followed by the explicit offset.
pub open spec fn clock_with_offset_text(t: CivilTime) -> Seq<char> {
    clock_text(t) + seq![' '] + offset_text(t.offset_seconds as int)
}

impl CivilTime {
    /// Every field lies in its calendar range.
    pub open spec fn wf(self) -> bool {
        &&& 0 <= self.year <= 9999
        &&& 1 <= self.month <= 12
        &&& 1 <= self.day <= 31
        &&& self.hour < 24
        &&& self.minute < 60
        &&& self.second < 60
        &&& -MAX_OFFSET_SECONDS <= self.offset_seconds <= MAX_OFFSET_SECONDS
    }

    pub fn is_valid(&self) -> (r: bool)
        ensures
            r == self.wf(),
    {
        0 <= self.year && self.year <= 9999 && 1 <= self.month && self.month <= 12 && 1
            <= self.day && self.day <= 31 && self.hour < 24 && self.minute < 60 && self.second
            < 60 && -MAX_OFFSET_SECONDS <= self.offset_seconds && self.offset_seconds
            <= MAX_OFFSET_SECONDS
    }

    /// `YYYY-MM-DD HH:MM:SS`.
    pub fn clock(&self) -> (r: String)
        requires
            self.wf(),
        ensures
            r@ == clock_text(*self),
    {
        let mut s = String::new();
        push_four_digits(&mut s, self.year as u32);
        push_str_char(&mut s, '-');
        push_two_digits(&mut s, self.month as u32);
        push_str_char(&mut s, '-');
        push_two_digits(&mut s, self.day as u32);
        push_str_char(&mut s, ' ');
        push_two_digits(&mut s, self.hour as u32);
        push_str_char(&mut s, ':');
        push_two_digits(&mut s, self.minute as u32);
        push_str_char(&mut s, ':');
        push_two_digits(&mut s, self.second as u32);
        proof {
            assert(s@ =~= clock_text(*self));
        }
        s
    }

    /// `YYYY-MM-DD HH:MM:SS +HH:MM:SS`.
    pub fn clock_with_offset(&self) -> (r: String)
        requires
            self.wf(),
        ensures
            r@ == clock_with_offset_text(*self),
    {
        let mut s = self.clock();
        push_str_char(&mut s, ' ');
        let o = self.offset_seconds;
        let a: u32 = if o < 0 {
            push_str_char(&mut s, '-');
            (-o) as u32
        } else {
            push_str_char(&mut s, '+');
            o as u32
        };
        push_two_digits(&mut s, a / 3600);
        push_str_char(&mut s, ':');
        push_two_digits(&mut s, a % 3600 / 60);
        push_str_char(&mut s, ':');
        push_two_digits(&mut s, a % 60);
        proof {
            assert(s@ =~= clock_with_offset_text(*self));
        }
        s
    }
}

/// Appends one of the separators `-`, ` `, `:` and `+`.
fn push_str_char(s: &mut String, c: char)
    requires
        c == '-' || c == ' ' || c == ':' || c == '+',
    ensures
        final(s)@ == old(s)@ + seq![c],
{
    if c == '-' {
        proof {
            reveal_strlit("-");
        }
        s.append("-");
    } else if c == ' ' {
        proof {
            reveal_strlit(" ");
        }
        s.append(" ");
    } else if c == ':' {
        proof {
            reveal_strlit(":");
        }
        s.append(":");
    } else {
        proof {
            reveal_strlit("+");
        }
        s.append("+");
    }
}

/// Appends the decimal digit `d`.
fn push_digit(s: &mut String, d: u32)
    requires
        d < 10,
    ensures
        final(s)@ == old(s)@ + seq![digit(d as int)],
{
    let t: &str = if d == 0 {
        proof {
            reveal_strlit("0");
        }
        "0"
    } else if d == 1 {
        proof {
            reveal_strlit("1");
        }
        "1"
    } else if d == 2 {
        proof {
            reveal_strlit("2");
        }
        "2"
    } else if d == 3 {
        proof {
            reveal_strlit("3");
        }
        "3"
    } else if d == 4 {
        proof {
            reveal_strlit("4");
        }
        "4"
    } else if d == 5 {
        proof {
            reveal_strlit("5");
        }
        "5"
    } else if d == 6 {
        proof {
            reveal_strlit("6");
        }
        "6"
    } else if d == 7 {
        proof {
            reveal_strlit("7");
        }
        "7"
    } else if d == 8 {
        proof {
            reveal_strlit("8");
        }
        "8"
    } else {
        proof {
            reveal_strlit("9");
        }
        "9"
    };
    s.append(t);
}

fn push_two_digits(s: &mut String, n: u32)
    requires
        n < 100,
    ensures
        final(s)@ == old(s)@ + two_digits(n as int),
{
    push_digit(s, n / 10);
    push_digit(s, n % 10);
    proof {
        assert(final(s)@ =~= old(s)@ + two_digits(n as int));
    }
}

fn push_four_digits(s: &mut String, n: u32)
    requires
        n < 10000,
    ensures
        final(s)@ == old(s)@ + four_digits(n as int),
{
    push_digit(s, n / 1000);
    push_digit(s, n / 100 % 10);
    push_digit(s, n / 10 % 10);
    push_digit(s, n % 10);
    proof {
        assert(final(s)@ =~= old(s)@ + four_digits(n as int));
    }
}

} // verus!
