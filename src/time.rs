//! Instants in UTC to the second, written as RFC 3339 text `YYYY-MM-DDTHH:MM:SSZ`.
use vstd::prelude::*;
use crate::json::push_char;
use crate::text::digit_char;

verus! {

/// An instant in UTC, to the second.
#[derive(Debug, Clone, Copy, PartialEq, Eq, Structural, Hash)]
pub struct Timestamp {
    pub year: u16,
    pub month: u8,
    pub day: u8,
    pub hour: u8,
    pub minute: u8,
    pub second: u8,
}

pub open spec fn is_leap(year: int) -> bool {
    (year % 4 == 0 && year % 100 != 0) || year % 400 == 0
}

#[verifier::opaque]
pub open spec fn days_in_month(year: int, month: int) -> int {
    if month == 2 {
        if is_leap(year) {
            29
        } else {
            28
        }
    } else if month == 4 || month == 6 || month == 9 || month == 11 {
        30
    } else {
        31
    }
}

impl Timestamp {
    /// The fields name a real instant that four year digits can write.
    pub open spec fn wf(&self) -> bool {
        &&& self.year <= 9999
        &&& 1 <= self.month <= 12
        &&& 1 <= self.day <= days_in_month(self.year as int, self.month as int)
        &&& self.hour < 24
        &&& self.minute < 60
        &&& self.second < 60
    }

    /// The fields in order of significance.
    pub open spec fn fields(&self) -> Seq<int> {
        seq![
            self.year as int,
            self.month as int,
            self.day as int,
            self.hour as int,
            self.minute as int,
            self.second as int,
        ]
    }
}

/// Whether `a` is strictly earlier than `b`.
pub open spec fn time_lt(a: Timestamp, b: Timestamp) -> bool {
    if a.year != b.year {
        a.year < b.year
    } else if a.month != b.month {
        a.month < b.month
    } else if a.day != b.day {
        a.day < b.day
    } else if a.hour != b.hour {
        a.hour < b.hour
    } else if a.minute != b.minute {
        a.minute < b.minute
    } else {
        a.second < b.second
    }
}

/// The RFC 3339 text of `t`.
pub open spec fn time_text(t: Timestamp) -> Seq<char> {
    let (y, mo, d, h, mi, s) = (
        t.year as int,
        t.month as int,
        t.day as int,
        t.hour as int,
        t.minute as int,
        t.second as int,
    );
    seq![
        digit_char((y / 1000) as nat),
        digit_char(((y / 100) % 10) as nat),
        digit_char(((y / 10) % 10) as nat),
        digit_char((y % 10) as nat),
        '-',
        digit_char((mo / 10) as nat),
        digit_char((mo % 10) as nat),
        '-',
        digit_char((d / 10) as nat),
        digit_char((d % 10) as nat),
        'T',
        digit_char((h / 10) as nat),
        digit_char((h % 10) as nat),
        ':',
        digit_char((mi / 10) as nat),
        digit_char((mi % 10) as nat),
        ':',
        digit_char((s / 10) as nat),
        digit_char((s % 10) as nat),
        'Z',
    ]
}

pub open spec fn is_digit(c: char) -> bool {
    '0' <= c && c <= '9'
}

pub open spec fn digit_val(c: char) -> int {
    c as int - 48
}

/// The number written by the digits `t[i..i+n]`, when they are all digits.
pub open spec fn digits_at(t: Seq<char>, i: int, n: int) -> Option<int>
    decreases n,
{
    if n <= 0 {
        Some(0)
    } else if !is_digit(t[i + n - 1]) {
        None
    } else {
        match digits_at(t, i, n - 1) {
            None => None,
            Some(v) => Some(v * 10 + digit_val(t[i + n - 1])),
        }
    }
}

/// Reads the RFC 3339 text of a valid instant; `None` for any other text.
pub open spec fn parse_time(t: Seq<char>) -> Option<Timestamp> {
    if t.len() != 20 || t[4] != '-' || t[7] != '-' || t[10] != 'T' || t[13] != ':' || t[16] != ':'
        || t[19] != 'Z' {
        None
    } else {
        match (
            digits_at(t, 0, 4),
            digits_at(t, 5, 2),
            digits_at(t, 8, 2),
            digits_at(t, 11, 2),
            digits_at(t, 14, 2),
            digits_at(t, 17, 2),
        ) {
            (Some(y), Some(mo), Some(d), Some(h), Some(mi), Some(s)) => {
                let ts = Timestamp {
                    year: y as u16,
                    month: mo as u8,
                    day: d as u8,
                    hour: h as u8,
                    minute: mi as u8,
                    second: s as u8,
                };
                if ts.wf() {
                    Some(ts)
                } else {
                    None
                }
            },
            _ => None,
        }
    }
}

pub open spec fn ten_pow(n: int) -> int
    decreases n,
{
    if n <= 0 {
        1
    } else {
        10 * ten_pow(n - 1)
    }
}

proof fn lemma_digits_at_bound(t: Seq<char>, i: int, n: int)
    requires
        0 <= n <= 4,
        digits_at(t, i, n) is Some,
    ensures
        0 <= digits_at(t, i, n)->Some_0 < ten_pow(n),
    decreases n,
{
    if n > 0 {
        lemma_digits_at_bound(t, i, n - 1);
    }
}

proof fn lemma_digit_char(d: int)
    requires
        0 <= d < 10,
    ensures
        is_digit(digit_char(d as nat)),
        digit_val(digit_char(d as nat)) == d,
{
}

proof fn lemma_digits_pad2(t: Seq<char>, i: int, n: int)
    requires
        0 <= n < 100,
        0 <= i,
        i + 2 <= t.len(),
        t[i] == digit_char((n / 10) as nat),
        t[i + 1] == digit_char((n % 10) as nat),
    ensures
        digits_at(t, i, 2) == Some(n),
{
    lemma_digit_char(n / 10);
    lemma_digit_char(n % 10);
    assert(digits_at(t, i, 0) == Some(0int));
    assert(digits_at(t, i, 1) == Some(n / 10));
}

proof fn lemma_digits_pad4(t: Seq<char>, i: int, n: int)
    requires
        0 <= n < 10000,
        0 <= i,
        i + 4 <= t.len(),
        t[i] == digit_char((n / 1000) as nat),
        t[i + 1] == digit_char(((n / 100) % 10) as nat),
        t[i + 2] == digit_char(((n / 10) % 10) as nat),
        t[i + 3] == digit_char((n % 10) as nat),
    ensures
        digits_at(t, i, 4) == Some(n),
{
    lemma_digit_char(n / 1000);
    lemma_digit_char((n / 100) % 10);
    lemma_digit_char((n / 10) % 10);
    lemma_digit_char(n % 10);
    assert(digits_at(t, i, 0) == Some(0int));
    assert(digits_at(t, i, 1) == Some(n / 1000));
    assert(digits_at(t, i, 2) == Some(n / 100)) by {
        assert((n / 1000) * 10 + (n / 100) % 10 == n / 100);
    }
    assert(digits_at(t, i, 3) == Some(n / 10)) by {
        assert((n / 100) * 10 + (n / 10) % 10 == n / 10);
    }
}

/// The text of a valid instant reads back as that instant.
#[verifier::rlimit(100)]
pub proof fn lemma_parse_time_text(ts: Timestamp)
    requires
        ts.wf(),
    ensures
        parse_time(time_text(ts)) == Some(ts),
{
    let t = time_text(ts);
    assert(t.len() == 20);
    assert(ts.day <= 31) by {
        reveal(days_in_month);
    }
    lemma_digits_pad4(t, 0, ts.year as int);
    lemma_digits_pad2(t, 5, ts.month as int);
    lemma_digits_pad2(t, 8, ts.day as int);
    lemma_digits_pad2(t, 11, ts.hour as int);
    lemma_digits_pad2(t, 14, ts.minute as int);
    lemma_digits_pad2(t, 17, ts.second as int);
    assert(t[4] == '-' && t[7] == '-' && t[10] == 'T' && t[13] == ':' && t[16] == ':' && t[19] == 'Z');
}


fn digit_of(n: u16) -> (r: char)
    ensures
        r == digit_char(n as nat),
{
    ((n % 10) as u8 + 48) as char
}

fn push_two(out: &mut String, n: u16)
    ensures
        final(out)@ == old(out)@ + seq![digit_char((n / 10) as nat), digit_char((n % 10) as nat)],
{
    let ghost start = out@;
    push_char(out, digit_of(n / 10));
    push_char(out, digit_of(n % 10));
    assert(out@ =~= start + seq![digit_char((n / 10) as nat), digit_char((n % 10) as nat)]);
}

fn month_days(year: u16, month: u8) -> (r: u8)
    ensures
        r == days_in_month(year as int, month as int),
{
    reveal(days_in_month);
    if month == 2 {
        if (year % 4 == 0 && year % 100 != 0) || year % 400 == 0 {
            29
        } else {
            28
        }
    } else if month == 4 || month == 6 || month == 9 || month == 11 {
        30
    } else {
        31
    }
}

fn read_digits(t: &Vec<char>, i: usize, n: usize) -> (r: Option<u16>)
    requires
        n <= 4,
        i + n <= t@.len(),
    ensures
        match digits_at(t@, i as int, n as int) {
            None => r is None,
            Some(v) => r == Some(v as u16) && v < 10000,
        },
{
    let len = t.len();
    let mut k: usize = 0;
    let mut v: u16 = 0;
    while k < n
        invariant
            len == t@.len(),
            k <= n <= 4,
            i + n <= t@.len(),
            digits_at(t@, i as int, k as int) == Some(v as int),
            v < ten_pow(k as int),
        decreases n - k,
    {
        let c = t[i + k];
        if !('0' <= c && c <= '9') {
            proof {
                lemma_digits_none(t@, i as int, (k + 1) as int, n as int);
            }
            return None;
        }
        proof {
            assert(ten_pow((k + 1) as int) == 10 * ten_pow(k as int));
            assert(ten_pow(4) == 10000) by {
                reveal_with_fuel(ten_pow, 5);
            }
            lemma_ten_pow_mono(k as int + 1, 4);
        }
        v = v * 10 + ((c as u32) - 48) as u16;
        k = k + 1;
    }
    proof {
        assert(ten_pow(4) == 10000) by {
            reveal_with_fuel(ten_pow, 5);
        }
        lemma_ten_pow_mono(n as int, 4);
    }
    Some(v)
}

proof fn lemma_ten_pow_pos(n: int)
    ensures
        ten_pow(n) >= 1,
    decreases n,
{
    if n > 0 {
        lemma_ten_pow_pos(n - 1);
    }
}

proof fn lemma_ten_pow_mono(a: int, b: int)
    requires
        0 <= a <= b,
    ensures
        ten_pow(a) <= ten_pow(b),
    decreases b - a,
{
    if a < b {
        lemma_ten_pow_mono(a, b - 1);
        lemma_ten_pow_pos(b - 1);
    }
}

proof fn lemma_digits_none(t: Seq<char>, i: int, k: int, n: int)
    requires
        1 <= k <= n,
        digits_at(t, i, k) is None,
    ensures
        digits_at(t, i, n) is None,
    decreases n - k,
{
    if k < n {
        lemma_digits_none(t, i, k + 1, n);
    }
}

impl Timestamp {
    /// The instant with these fields, if they name one.
    pub fn new(year: u16, month: u8, day: u8, hour: u8, minute: u8, second: u8) -> (r: Option<Timestamp>)
        ensures
            r is Some <==> (Timestamp { year, month, day, hour, minute, second }).wf(),
            r is Some ==> r == Some(Timestamp { year, month, day, hour, minute, second }),
    {
        if year <= 9999 && 1 <= month && month <= 12 && 1 <= day && day <= month_days(year, month)
            && hour < 24 && minute < 60 && second < 60 {
            Some(Timestamp { year, month, day, hour, minute, second })
        } else {
            None
        }
    }

    /// Whether `self` is strictly earlier than `other`.
    pub fn is_before(&self, other: &Timestamp) -> (r: bool)
        ensures
            r == time_lt(*self, *other),
    {
        if self.year != other.year {
            self.year < other.year
        } else if self.month != other.month {
            self.month < other.month
        } else if self.day != other.day {
            self.day < other.day
        } else if self.hour != other.hour {
            self.hour < other.hour
        } else if self.minute != other.minute {
            self.minute < other.minute
        } else {
            self.second < other.second
        }
    }

    /// Appends the RFC 3339 text of the instant.
    #[verifier::rlimit(100)]
    pub fn push_text(&self, out: &mut String)
        ensures
            final(out)@ == old(out)@ + time_text(*self),
    {
        let ghost start = out@;
        let y = self.year;
        push_char(out, digit_of(y / 1000));
        push_char(out, digit_of((y / 100) % 10));
        push_two(out, y % 100);
        let ghost after_year = out@;
        push_char(out, '-');
        push_two(out, self.month as u16);
        push_char(out, '-');
        push_two(out, self.day as u16);
        push_char(out, 'T');
        let ghost after_date = out@;
        push_two(out, self.hour as u16);
        push_char(out, ':');
        push_two(out, self.minute as u16);
        push_char(out, ':');
        push_two(out, self.second as u16);
        push_char(out, 'Z');
        proof {
            let yi = y as int;
            assert((yi % 100) / 10 == (yi / 10) % 10) by (nonlinear_arith)
                requires
                    0 <= yi,
            ;
            assert((yi % 100) % 10 == yi % 10) by (nonlinear_arith)
                requires
                    0 <= yi,
            ;
            let tt = time_text(*self);
            assert(out@.len() == start.len() + 20);
            assert forall|k: int| 0 <= k < 20 implies out@[start.len() + k] == tt[k] by {
                if k < 4 {
                    assert(out@[start.len() + k] == after_year[start.len() + k]);
                } else if k < 11 {
                    assert(out@[start.len() + k] == after_date[start.len() + k]);
                }
            }
        }
        assert(out@ =~= start + time_text(*self));
    }

    /// The RFC 3339 text of the instant.
    pub fn to_text(&self) -> (r: String)
        ensures
            r@ == time_text(*self),
    {
        let mut r = String::new();
        self.push_text(&mut r);
        r
    }

    /// Reads RFC 3339 text `YYYY-MM-DDTHH:MM:SSZ`.
    pub fn parse(t: &Vec<char>) -> (r: Option<Timestamp>)
        ensures
            r == parse_time(t@),
    {
        if t.len() != 20 || t[4] != '-' || t[7] != '-' || t[10] != 'T' || t[13] != ':' || t[16]
            != ':' || t[19] != 'Z' {
            return None;
        }
        let y = match read_digits(t, 0, 4) {
            Some(v) => v,
            None => {
                return None;
            },
        };
        let mo = match read_digits(t, 5, 2) {
            Some(v) => v,
            None => {
                return None;
            },
        };
        let d = match read_digits(t, 8, 2) {
            Some(v) => v,
            None => {
                return None;
            },
        };
        let h = match read_digits(t, 11, 2) {
            Some(v) => v,
            None => {
                return None;
            },
        };
        let mi = match read_digits(t, 14, 2) {
            Some(v) => v,
            None => {
                return None;
            },
        };
        let s = match read_digits(t, 17, 2) {
            Some(v) => v,
            None => {
                return None;
            },
        };
        proof {
            lemma_digits_at_bound(t@, 5, 2);
            lemma_digits_at_bound(t@, 8, 2);
            lemma_digits_at_bound(t@, 11, 2);
            lemma_digits_at_bound(t@, 14, 2);
            lemma_digits_at_bound(t@, 17, 2);
            reveal_with_fuel(ten_pow, 3);
        }
        Timestamp::new(y, mo as u8, d as u8, h as u8, mi as u8, s as u8)
    }
}


proof fn lemma_digits_sound2(t: Seq<char>, i: int)
    requires
        0 <= i,
        i + 2 <= t.len(),
        digits_at(t, i, 2) is Some,
    ensures
        ({
            let n = digits_at(t, i, 2)->Some_0;
            t[i] == digit_char((n / 10) as nat) && t[i + 1] == digit_char((n % 10) as nat)
        }),
{
    reveal_with_fuel(digits_at, 5);
    let a = digit_val(t[i]);
    let b = digit_val(t[i + 1]);
    assert(digits_at(t, i, 1) == Some(a));
    assert(digits_at(t, i, 2) == Some(a * 10 + b));
    assert((a * 10 + b) / 10 == a);
    assert((a * 10 + b) % 10 == b);
}

proof fn lemma_digits_sound4(t: Seq<char>, i: int)
    requires
        0 <= i,
        i + 4 <= t.len(),
        digits_at(t, i, 4) is Some,
    ensures
        ({
            let n = digits_at(t, i, 4)->Some_0;
            t[i] == digit_char((n / 1000) as nat) && t[i + 1] == digit_char(((n / 100) % 10) as nat)
                && t[i + 2] == digit_char(((n / 10) % 10) as nat) && t[i + 3] == digit_char(
                (n % 10) as nat,
            )
        }),
{
    reveal_with_fuel(digits_at, 5);
    assert(digits_at(t, i, 3) is Some);
    assert(digits_at(t, i, 2) is Some);
    assert(digits_at(t, i, 1) is Some);
    let a = digit_val(t[i]);
    let b = digit_val(t[i + 1]);
    let c = digit_val(t[i + 2]);
    let d = digit_val(t[i + 3]);
    assert(digits_at(t, i, 1) == Some(a));
    assert(digits_at(t, i, 2) == Some(a * 10 + b));
    assert(digits_at(t, i, 3) == Some((a * 10 + b) * 10 + c));
    assert(digits_at(t, i, 4) == Some(((a * 10 + b) * 10 + c) * 10 + d));
    let n = ((a * 10 + b) * 10 + c) * 10 + d;
    assert(n / 1000 == a && (n / 100) % 10 == b && (n / 10) % 10 == c && n % 10 == d) by (nonlinear_arith)
        requires
            n == ((a * 10 + b) * 10 + c) * 10 + d,
            0 <= a < 10,
            0 <= b < 10,
            0 <= c < 10,
            0 <= d < 10,
    ;
}

/// A text read as an instant is the text of that instant.
pub proof fn lemma_time_text_parse(t: Seq<char>)
    requires
        parse_time(t) is Some,
    ensures
        time_text(parse_time(t)->Some_0) == t,
{
    lemma_digits_sound4(t, 0);
    lemma_digits_sound2(t, 5);
    lemma_digits_sound2(t, 8);
    lemma_digits_sound2(t, 11);
    lemma_digits_sound2(t, 14);
    lemma_digits_sound2(t, 17);
    lemma_digits_at_bound(t, 0, 4);
    lemma_digits_at_bound(t, 5, 2);
    lemma_digits_at_bound(t, 8, 2);
    lemma_digits_at_bound(t, 11, 2);
    lemma_digits_at_bound(t, 14, 2);
    lemma_digits_at_bound(t, 17, 2);
    reveal_with_fuel(ten_pow, 5);
    assert(time_text(parse_time(t)->Some_0) =~= t);
}

} // verus!
