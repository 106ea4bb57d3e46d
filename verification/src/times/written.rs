//! Dates as they are written, and what they are read as.

use vstd::prelude::*;

use super::{
    at, civil_days, clock, day, days_in_month, dos_time, field, lemma_calendar, moment, signed,
    DateFault,
};
use crate::numbers::{dec, digits_value, lemma_dec_digits, lemma_digits_len, number, zero_filled};
use crate::text::{
    lemma_first_from, lemma_pieces_one, lemma_pieces_step, lemma_trimmed, pieces, white,
};

verus! {

/// A number in at least `width` digits.
pub open spec fn padded(n: int, width: int) -> Seq<char> {
    zero_filled(dec(n), width)
}

/// A date as `YYYY-MM-DD`.
pub open spec fn date_text(y: int, m: int, d: int) -> Seq<char> {
    padded(y, 4) + seq!['-'] + padded(m, 2) + seq!['-'] + padded(d, 2)
}

/// A time of day as `HH:MM:SS`.
pub open spec fn clock_text(h: int, min: int, sec: int) -> Seq<char> {
    padded(h, 2) + seq![':'] + padded(min, 2) + seq![':'] + padded(sec, 2)
}

/// Whether a date is one of the calendar.
pub open spec fn real_date(y: int, m: int, d: int) -> bool {
    1 <= m <= 12 && 1 <= d <= days_in_month(y, m)
}

/// The date of the next day.
pub open spec fn next_date(y: int, m: int, d: int) -> (int, int, int) {
    if d < days_in_month(y, m) {
        (y, m, d + 1)
    } else if m < 12 {
        (y, m + 1, 1)
    } else {
        (y + 1, 1, 1)
    }
}

proof fn lemma_zeros(k: nat)
    ensures
        digits_value(Seq::new(k, |i: int| '0')) == Some(0int),
    decreases k,
{
    let z = Seq::new(k, |i: int| '0');
    if k > 0 {
        let less = (k - 1) as nat;
        lemma_zeros(less);
        assert(z.drop_last() =~= Seq::new(less, |i: int| '0'));
    }
}

proof fn lemma_leading_zeros(k: nat, t: Seq<char>)
    ensures
        digits_value(Seq::new(k, |i: int| '0') + t) == digits_value(t),
    decreases t.len(),
{
    let z = Seq::new(k, |i: int| '0');
    lemma_zeros(k);
    if t.len() == 0 {
        assert(z + t =~= z);
    } else {
        lemma_leading_zeros(k, t.drop_last());
        assert((z + t).drop_last() =~= z + t.drop_last());
    }
}

/// A padded number is all digits and is read as itself.
proof fn lemma_padded(n: int, width: int)
    requires
        0 <= n <= i64::MAX,
    ensures
        padded(n, width).len() > 0,
        forall|i: int| 0 <= i < padded(n, width).len() ==> '0' <= #[trigger] padded(n, width)[i] <= '9',
        signed(padded(n, width)) == Some(n as i64),
{
    let s = padded(n, width);
    lemma_dec_digits(n);
    lemma_digits_len(n, 10);
    if dec(n).len() < width {
        lemma_leading_zeros((width - dec(n).len()) as nat, dec(n));
    }
    assert(digits_value(s) == Some(n));
    assert('0' <= s[0] <= '9');
    assert(number(s) == Some(n as u64));
}

/// Three numbers between two marks are read as themselves.
proof fn lemma_three(a: Seq<char>, b: Seq<char>, c: Seq<char>, mark: char)
    requires
        forall|i: int| 0 <= i < a.len() ==> a[i] != mark,
        forall|i: int| 0 <= i < b.len() ==> b[i] != mark,
        forall|i: int| 0 <= i < c.len() ==> c[i] != mark,
    ensures
        pieces(a + seq![mark] + b + seq![mark] + c, mark, 4) == seq![a, b, c],
{
    let tail = b + seq![mark] + c;
    lemma_pieces_step(a, mark, tail, 4);
    lemma_pieces_step(b, mark, c, 3);
    lemma_pieces_one(c, mark, 2);
    assert(a + seq![mark] + b + seq![mark] + c =~= a + seq![mark] + tail);
    assert(seq![a] + (seq![b] + seq![c]) =~= seq![a, b, c]);
}

/// What `YYYY-MM-DD` holds, and the days that it is read as.
proof fn lemma_date_text(y: int, m: int, d: int)
    requires
        0 <= y <= 9999,
        real_date(y, m, d),
    ensures
        date_text(y, m, d).len() > 0,
        forall|i: int|
            0 <= i < date_text(y, m, d).len() ==> {
                let c = #[trigger] date_text(y, m, d)[i];
                '0' <= c <= '9' || c == '-'
            },
        day(date_text(y, m, d)) == Ok::<int, DateFault>(civil_days(y, m, d)),
{
    lemma_padded(y, 4);
    lemma_padded(m, 2);
    lemma_padded(d, 2);
    let f = seq![padded(y, 4), padded(m, 2), padded(d, 2)];
    lemma_three(f[0], f[1], f[2], '-');
    assert(pieces(date_text(y, m, d), '-', 4) == f);
    assert(field(f, 0) == Some(y as i64));
    assert(field(f, 1) == Some(m as i64));
    assert(field(f, 2) == Some(d as i64));
    assert(days_in_month(y, m) <= 31);
}

/// What `HH:MM:SS` holds, and the seconds that it is read as.
proof fn lemma_clock_text(h: int, min: int, sec: int)
    requires
        0 <= h < 24,
        0 <= min < 60,
        0 <= sec < 60,
    ensures
        clock_text(h, min, sec).len() > 0,
        forall|i: int|
            0 <= i < clock_text(h, min, sec).len() ==> {
                let c = #[trigger] clock_text(h, min, sec)[i];
                '0' <= c <= '9' || c == ':'
            },
        clock(clock_text(h, min, sec)) == Ok::<int, DateFault>(h * 3600 + min * 60 + sec),
{
    lemma_padded(h, 2);
    lemma_padded(min, 2);
    lemma_padded(sec, 2);
    let f = seq![padded(h, 2), padded(min, 2), padded(sec, 2)];
    lemma_three(f[0], f[1], f[2], ':');
    assert(pieces(clock_text(h, min, sec), ':', 4) == f);
    assert(field(f, 0) == Some(h as i64));
    assert(field(f, 1) == Some(min as i64));
    assert(signed(f[2]) == Some(sec as i64));
}

proof fn lemma_not_white(c: char)
    requires
        '0' <= c <= '9' || c == '-' || c == ':',
    ensures
        !white(c),
        c != 'T',
        c != ' ',
{
}

/// A date since 1970 is read as the seconds to its beginning.
pub proof fn lemma_date_is_read(y: int, m: int, d: int)
    requires
        1970 <= y <= 9999,
        real_date(y, m, d),
    ensures
        moment(date_text(y, m, d)) == Ok::<int, DateFault>(civil_days(y, m, d) * 86_400),
{
    let s = date_text(y, m, d);
    lemma_date_text(y, m, d);
    lemma_not_white(s[0]);
    lemma_not_white(s.last());
    lemma_trimmed(s);
    assert forall|j: int| 0 <= j < s.len() implies s[j] != 'T' && s[j] != ' ' by {
        lemma_not_white(s[j]);
    }
    lemma_first_from(s, 'T', 0, s.len() as int);
    lemma_first_from(s, ' ', 0, s.len() as int);
    assert(s.take(s.len() as int) =~= s);
    assert(0 <= civil_days(y, m, d) <= 4_000_000);
}

/// A date and time since 1970 is read as the seconds to that moment.
pub proof fn lemma_moment_is_read(y: int, m: int, d: int, h: int, min: int, sec: int)
    requires
        1970 <= y <= 9999,
        real_date(y, m, d),
        0 <= h < 24,
        0 <= min < 60,
        0 <= sec < 60,
    ensures
        moment(date_text(y, m, d) + seq!['T'] + clock_text(h, min, sec)) == Ok::<int, DateFault>(
            civil_days(y, m, d) * 86_400 + h * 3600 + min * 60 + sec,
        ),
{
    let a = date_text(y, m, d);
    let b = clock_text(h, min, sec);
    let s = a + seq!['T'] + b;
    lemma_date_text(y, m, d);
    lemma_clock_text(h, min, sec);
    lemma_not_white(a[0]);
    lemma_not_white(b.last());
    assert(s[0] == a[0] && s.last() == b.last());
    lemma_trimmed(s);
    let k = a.len() as int;
    assert forall|j: int| 0 <= j < s.len() && j != k implies s[j] != 'T' && s[j] != ' ' by {
        if j < k {
            assert(s[j] == a[j]);
            lemma_not_white(a[j]);
        } else {
            assert(s[j] == b[j - k - 1]);
            lemma_not_white(b[j - k - 1]);
        }
    }
    lemma_first_from(s, 'T', 0, k);
    lemma_first_from(s, ' ', 0, s.len() as int);
    assert(s.take(k) =~= a);
    assert(s.skip(k + 1) =~= b);
    assert(0 <= civil_days(y, m, d) <= 4_000_000);
}

/// Two days that follow each other lie 86400 seconds apart, across the ends of months
/// and years and leap days alike; 1970-01-01 is the epoch.
pub proof fn lemma_days_are_even(y: int, m: int, d: int)
    requires
        1970 <= y,
        real_date(y, m, d),
        next_date(y, m, d).0 <= 9999,
    ensures
        ({
            let n = next_date(y, m, d);
            let a = moment(date_text(y, m, d));
            let b = moment(date_text(n.0, n.1, n.2));
            &&& a is Ok
            &&& b is Ok
            &&& b->Ok_0 == a->Ok_0 + 86_400
        }),
        moment(date_text(1970, 1, 1)) == Ok::<int, DateFault>(0),
{
    let n = next_date(y, m, d);
    lemma_calendar(y, m);
    lemma_date_is_read(y, m, d);
    assert(real_date(n.0, n.1, n.2));
    lemma_date_is_read(n.0, n.1, n.2);
    assert(civil_days(n.0, n.1, n.2) == civil_days(y, m, d) + 1);
    lemma_date_is_read(1970, 1, 1);
}

/// A packed DOS date and time is the moment that its text is read as.
pub proof fn lemma_dos_as_text(date: int, time: int)
    requires
        0 <= date <= 0xFFFF,
        0 <= time <= 0xFFFF,
        real_date(1980 + date / 512, date / 32 % 16, date % 32),
        time / 2048 < 24,
        time / 32 % 64 < 60,
        time % 32 * 2 < 60,
    ensures
        ({
            let text = date_text(1980 + date / 512, date / 32 % 16, date % 32) + seq!['T']
                + clock_text(time / 2048, time / 32 % 64, time % 32 * 2);
            &&& moment(text) is Ok
            &&& dos_time(date, time) == Some(at(moment(text)->Ok_0))
        }),
{
    lemma_moment_is_read(
        1980 + date / 512,
        date / 32 % 16,
        date % 32,
        time / 2048,
        time / 32 % 64,
        time % 32 * 2,
    );
}

} // verus!
