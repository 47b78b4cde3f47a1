//! Clock helpers: when the clock counts as synchronised, waiting for the
//! first SNTP synchronisation, and reading the local time as `(hour, minute)`
//! or as a "YYYY-MM-DD HH:MM:SS" timestamp.

use vstd::prelude::*;

verus! {

/// Local calendar time as the C library's broken-down time holds it.
#[derive(Debug, Clone, Copy, PartialEq, Eq, Structural)]
pub struct LocalTime {
    /// Years since 1900.
    pub tm_year: i32,
    /// Month, 0..11.
    pub tm_mon: i32,
    /// Day of the month, 1..31.
    pub tm_mday: i32,
    /// Hour, 0..23.
    pub tm_hour: i32,
    /// Minute, 0..59.
    pub tm_min: i32,
    /// Second, 0..60.
    pub tm_sec: i32,
}

/// 2020-01-01 00:00:00 UTC in seconds since the epoch. A clock that reads
/// earlier has not been synchronised yet.
pub const SYNCED_EPOCH_FLOOR: i64 = 1_577_836_800;

/// Nanoseconds to wait for the first synchronisation (10 s).
pub const SYNC_TIMEOUT_NANOS: u128 = 10_000_000_000;

/// The clock, reading `epoch_secs` seconds since the epoch, has been set.
pub fn is_clock_synced(epoch_secs: i64) -> (b: bool)
    ensures
        b == (epoch_secs >= SYNCED_EPOCH_FLOOR),
{
    epoch_secs >= SYNCED_EPOCH_FLOOR
}

/// Nanoseconds between two polls of the SNTP status (500 ms).
pub const POLL_INTERVAL_NANOS: u64 = 500_000_000;

/// What to do while waiting for the first SNTP synchronisation.
#[derive(Debug, Clone, Copy, PartialEq, Eq, Structural)]
pub enum SyncWait {
    /// The clock is synchronised: stop waiting.
    Synced,
    /// The timeout has been reached: go on without waiting (SNTP keeps
    /// trying in the background).
    TimedOut,
    /// Sleep this many nanoseconds and poll again.
    KeepWaiting { sleep_nanos: u64 },
}

/// The decision at one poll of the SNTP wait: `completed` is the client's
/// status, and `elapsed_nanos` the time since the wait began. The sleep
/// before the next poll is the poll interval, cut short to the time left.
pub open spec fn sntp_wait_decision(completed: bool, elapsed_nanos: u128) -> SyncWait {
    if completed {
        SyncWait::Synced
    } else if elapsed_nanos >= SYNC_TIMEOUT_NANOS {
        SyncWait::TimedOut
    } else if elapsed_nanos + POLL_INTERVAL_NANOS <= SYNC_TIMEOUT_NANOS {
        SyncWait::KeepWaiting { sleep_nanos: POLL_INTERVAL_NANOS }
    } else {
        SyncWait::KeepWaiting { sleep_nanos: (SYNC_TIMEOUT_NANOS - elapsed_nanos) as u64 }
    }
}

/// One poll of the SNTP wait (see `sntp_wait_decision`).
pub fn sntp_wait_step(completed: bool, elapsed_nanos: u128) -> (w: SyncWait)
    ensures
        w == sntp_wait_decision(completed, elapsed_nanos),
{
    if completed {
        SyncWait::Synced
    } else if elapsed_nanos >= SYNC_TIMEOUT_NANOS {
        SyncWait::TimedOut
    } else {
        let left = SYNC_TIMEOUT_NANOS - elapsed_nanos;
        if left >= POLL_INTERVAL_NANOS as u128 {
            SyncWait::KeepWaiting { sleep_nanos: POLL_INTERVAL_NANOS }
        } else {
            SyncWait::KeepWaiting { sleep_nanos: left as u64 }
        }
    }
}

/// The wait for synchronisation lasts at most the timeout: every sleep it
/// asks for is positive and ends no later than the timeout, and at the
/// timeout an unsynchronised clock stops the wait.
pub proof fn lemma_sntp_wait_bounded(completed: bool, elapsed_nanos: u128)
    ensures
        sntp_wait_decision(completed, elapsed_nanos) matches SyncWait::KeepWaiting { sleep_nanos }
            ==> 0 < sleep_nanos && elapsed_nanos + sleep_nanos <= SYNC_TIMEOUT_NANOS,
        !completed && elapsed_nanos >= SYNC_TIMEOUT_NANOS ==> sntp_wait_decision(
            completed,
            elapsed_nanos,
        ) == SyncWait::TimedOut,
{
}

/// `(hour, minute)` of the local time, `None` when the clock could not be
/// read.
pub fn get_current_hm(tm: Option<LocalTime>) -> (r: Option<(u8, u8)>)
    ensures
        r == match tm {
            Some(t) => Some((t.tm_hour as u8, t.tm_min as u8)),
            None => None,
        },
{
    match tm {
        Some(t) => Some(((#[verifier::truncate] (t.tm_hour as u8)), (#[verifier::truncate] (t.tm_min as u8)))),
        None => None,
    }
}

/// The decimal digit `d` (0..9) as a character.
pub open spec fn digit_char(d: int) -> char {
    (('0' as int) + d) as char
}

/// Decimal digits of `n`, most significant first, without leading zeros.
pub open spec fn decimal_digits(n: nat) -> Seq<char>
    decreases n,
{
    if n < 10 {
        seq![digit_char(n as int)]
    } else {
        decimal_digits(n / 10).push(digit_char((n % 10) as int))
    }
}

/// `n` zeros.
pub open spec fn zeros(n: int) -> Seq<char> {
    Seq::new(if n > 0 { n as nat } else { 0 }, |_i: int| '0')
}

/// `x` in decimal, zero-padded after the sign to at least `width` characters
/// in all (the `{:0width$}` format of an integer).
pub open spec fn padded_decimal(x: int, width: int) -> Seq<char> {
    if x < 0 {
        let d = decimal_digits((-x) as nat);
        seq!['-'] + zeros(width - 1 - d.len()) + d
    } else {
        let d = decimal_digits(x as nat);
        zeros(width - d.len()) + d
    }
}

/// "YYYY-MM-DD HH:MM:SS" for `t`.
pub open spec fn timestamp_text(t: LocalTime) -> Seq<char> {
    padded_decimal(t.tm_year + 1900, 4) + seq!['-'] + padded_decimal(t.tm_mon + 1, 2) + seq!['-']
        + padded_decimal(t.tm_mday as int, 2) + seq![' '] + padded_decimal(t.tm_hour as int, 2)
        + seq![':'] + padded_decimal(t.tm_min as int, 2) + seq![':'] + padded_decimal(
        t.tm_sec as int,
        2,
    )
}

fn digit_str(d: u32) -> (s: &'static str)
    requires
        d < 10,
    ensures
        s@ == seq![digit_char(d as int)],
{
    proof {
        reveal_strlit("0");
        reveal_strlit("1");
        reveal_strlit("2");
        reveal_strlit("3");
        reveal_strlit("4");
        reveal_strlit("5");
        reveal_strlit("6");
        reveal_strlit("7");
        reveal_strlit("8");
        reveal_strlit("9");
    }
    match d {
        0 => "0",
        1 => "1",
        2 => "2",
        3 => "3",
        4 => "4",
        5 => "5",
        6 => "6",
        7 => "7",
        8 => "8",
        _ => "9",
    }
}

fn push_decimal(out: &mut String, n: u32)
    ensures
        final(out)@ == old(out)@ + decimal_digits(n as nat),
    decreases n,
{
    if n < 10 {
        out.append(digit_str(n));
    } else {
        push_decimal(out, n / 10);
        out.append(digit_str(n % 10));
        proof {
            assert(old(out)@ + decimal_digits(n as nat) =~= old(out)@ + decimal_digits(
                (n / 10) as nat,
            ) + seq![digit_char((n % 10) as int)]);
        }
    }
}

fn decimal_len(n: u32) -> (len: usize)
    ensures
        len == decimal_digits(n as nat).len(),
        n < 10 ==> len <= 1,
        n < 100 ==> len <= 2,
        n < 1000 ==> len <= 3,
        n < 10000 ==> len <= 4,
        n < 100000 ==> len <= 5,
        n < 1000000 ==> len <= 6,
        n < 10000000 ==> len <= 7,
        n < 100000000 ==> len <= 8,
        n < 1000000000 ==> len <= 9,
        len <= 10,
    decreases n,
{
    if n < 10 {
        1
    } else {
        decimal_len(n / 10) + 1
    }
}

fn push_zeros(out: &mut String, count: usize)
    ensures
        final(out)@ == old(out)@ + zeros(count as int),
{
    let ghost start = out@;
    let mut i: usize = 0;
    while i < count
        invariant
            i <= count,
            out@ == start + zeros(i as int),
        decreases count - i,
    {
        proof {
            reveal_strlit("0");
        }
        out.append("0");
        i = i + 1;
        proof {
            assert(start + zeros(i as int) =~= start + zeros((i - 1) as int) + seq!['0']);
        }
    }
}

fn push_padded(out: &mut String, x: i32, width: usize)
    requires
        1 <= width <= 4,
    ensures
        final(out)@ == old(out)@ + padded_decimal(x as int, width as int),
{
    proof {
        reveal_strlit("-");
    }
    if x < 0 {
        let m: u32 = (-(x as i64)) as u32;
        let len = decimal_len(m);
        out.append("-");
        let pad: usize = if width - 1 > len { width - 1 - len } else { 0 };
        push_zeros(out, pad);
        push_decimal(out, m);
        proof {
            assert(zeros(pad as int) =~= zeros(width - 1 - len));
            assert(old(out)@ + padded_decimal(x as int, width as int) =~= old(out)@ + seq!['-']
                + zeros(pad as int) + decimal_digits(m as nat));
        }
    } else {
        let m: u32 = x as u32;
        let len = decimal_len(m);
        let pad: usize = if width > len { width - len } else { 0 };
        push_zeros(out, pad);
        push_decimal(out, m);
        proof {
            assert(zeros(pad as int) =~= zeros(width - len));
            assert(old(out)@ + padded_decimal(x as int, width as int) =~= old(out)@ + zeros(
                pad as int,
            ) + decimal_digits(m as nat));
        }
    }
}

/// The local time as "YYYY-MM-DD HH:MM:SS", `None` when the clock could not
/// be read.
pub fn get_local_time_string(tm: Option<LocalTime>) -> (r: Option<String>)
    requires
        tm matches Some(t) ==> t.tm_year + 1900 <= i32::MAX && t.tm_mon + 1 <= i32::MAX,
    ensures
        match tm {
            Some(t) => r matches Some(s) && s@ == timestamp_text(t),
            None => r is None,
        },
{
    match tm {
        None => None,
        Some(t) => {
            proof {
                reveal_strlit("-");
                reveal_strlit(" ");
                reveal_strlit(":");
            }
            let mut s = String::new();
            push_padded(&mut s, t.tm_year + 1900, 4);
            s.append("-");
            push_padded(&mut s, t.tm_mon + 1, 2);
            s.append("-");
            push_padded(&mut s, t.tm_mday, 2);
            s.append(" ");
            push_padded(&mut s, t.tm_hour, 2);
            s.append(":");
            push_padded(&mut s, t.tm_min, 2);
            s.append(":");
            push_padded(&mut s, t.tm_sec, 2);
            proof {
                assert(s@ =~= timestamp_text(t));
            }
            Some(s)
        },
    }
}

/// Two decimal digits of `x` (0..99).
pub open spec fn two_digits(x: int) -> Seq<char> {
    seq![digit_char(x / 10), digit_char(x % 10)]
}

/// Four decimal digits of `x` (0..9999).
pub open spec fn four_digits(x: int) -> Seq<char> {
    seq![digit_char(x / 1000), digit_char(x / 100 % 10), digit_char(x / 10 % 10), digit_char(x % 10)]
}

proof fn lemma_padded_two(x: int)
    requires
        0 <= x <= 99,
    ensures
        padded_decimal(x, 2) == two_digits(x),
{
    reveal_with_fuel(decimal_digits, 2);
    assert(digit_char(0) == '0');
    if x < 10 {
        assert(padded_decimal(x, 2) =~= two_digits(x));
    } else {
        assert(decimal_digits(x as nat) =~= seq![digit_char(x / 10), digit_char(x % 10)]);
        assert(padded_decimal(x, 2) =~= two_digits(x));
    }
}

proof fn lemma_padded_four(x: int)
    requires
        1000 <= x <= 9999,
    ensures
        padded_decimal(x, 4) == four_digits(x),
{
    reveal_with_fuel(decimal_digits, 4);
    let n = x as nat;
    assert(decimal_digits(n / 1000) =~= seq![digit_char(x / 1000)]);
    assert(decimal_digits(n / 100) =~= seq![digit_char(x / 1000), digit_char(x / 100 % 10)]);
    assert(decimal_digits(n / 10) =~= seq![
        digit_char(x / 1000),
        digit_char(x / 100 % 10),
        digit_char(x / 10 % 10),
    ]);
    assert(padded_decimal(x, 4) =~= four_digits(x));
}

/// For a four-digit year and two-digit month, day, hour, minute and second,
/// the timestamp is the 19 characters "YYYY-MM-DD HH:MM:SS": each field
/// zero-padded to its width, with the separators at 4, 7, 10, 13 and 16.
/// The hour and minute fields show the `(hour, minute)` that
/// `get_current_hm` gives for the same time.
pub proof fn lemma_timestamp_layout(t: LocalTime)
    requires
        1000 <= t.tm_year + 1900 <= 9999,
        0 <= t.tm_mon + 1 <= 99,
        0 <= t.tm_mday <= 99,
        0 <= t.tm_hour <= 99,
        0 <= t.tm_min <= 99,
        0 <= t.tm_sec <= 99,
    ensures
        timestamp_text(t) == four_digits(t.tm_year + 1900) + seq!['-'] + two_digits(t.tm_mon + 1)
            + seq!['-'] + two_digits(t.tm_mday as int) + seq![' '] + two_digits(t.tm_hour as int)
            + seq![':'] + two_digits(t.tm_min as int) + seq![':'] + two_digits(t.tm_sec as int),
        timestamp_text(t).len() == 19,
        timestamp_text(t)[4] == '-' && timestamp_text(t)[7] == '-',
        timestamp_text(t)[10] == ' ',
        timestamp_text(t)[13] == ':' && timestamp_text(t)[16] == ':',
        timestamp_text(t).subrange(11, 13) == two_digits((t.tm_hour as u8) as int),
        timestamp_text(t).subrange(14, 16) == two_digits((t.tm_min as u8) as int),
{
    lemma_padded_four(t.tm_year + 1900);
    lemma_padded_two(t.tm_mon + 1);
    lemma_padded_two(t.tm_mday as int);
    lemma_padded_two(t.tm_hour as int);
    lemma_padded_two(t.tm_min as int);
    lemma_padded_two(t.tm_sec as int);
    let s = timestamp_text(t);
    assert(s.subrange(11, 13) =~= two_digits((t.tm_hour as u8) as int));
    assert(s.subrange(14, 16) =~= two_digits((t.tm_min as u8) as int));
}

/// The decimal digits, in order.
pub open spec fn decimal_digit_chars() -> Seq<char> {
    seq!['0', '1', '2', '3', '4', '5', '6', '7', '8', '9']
}

/// The number that a character stands for as a decimal digit.
pub open spec fn digit_value(c: char) -> int {
    (c as int) - ('0' as int)
}

/// The number written by a sequence of decimal digits.
pub open spec fn decimal_reading(s: Seq<char>) -> int
    decreases s.len(),
{
    if s.len() == 0 {
        0
    } else {
        decimal_reading(s.drop_last()) * 10 + digit_value(s.last())
    }
}

/// Each digit 0..9 is written as its own decimal character.
pub proof fn lemma_digit_chars(d: int)
    requires
        0 <= d <= 9,
    ensures
        digit_char(d) == decimal_digit_chars()[d],
        digit_value(digit_char(d)) == d,
{
    assert(decimal_digit_chars()[0] == '0');
    assert(decimal_digit_chars()[1] == '1');
    assert(decimal_digit_chars()[2] == '2');
    assert(decimal_digit_chars()[3] == '3');
    assert(decimal_digit_chars()[4] == '4');
    assert(decimal_digit_chars()[5] == '5');
    assert(decimal_digit_chars()[6] == '6');
    assert(decimal_digit_chars()[7] == '7');
    assert(decimal_digit_chars()[8] == '8');
    assert(decimal_digit_chars()[9] == '9');
}

/// The decimal text of `n` is made of decimal digits, starts with a nonzero
/// digit unless `n` is 0, and reads back as `n`.
pub proof fn lemma_decimal_digits_read_back(n: nat)
    ensures
        decimal_reading(decimal_digits(n)) == n,
        forall|k: int|
            0 <= k < decimal_digits(n).len() ==> decimal_digit_chars().contains(
                #[trigger] decimal_digits(n)[k],
            ),
        n > 0 ==> decimal_digits(n)[0] != '0',
    decreases n,
{
    if n < 10 {
        lemma_digit_chars(n as int);
        assert(decimal_digits(n) =~= seq![digit_char(n as int)]);
        assert(decimal_digits(n).drop_last() =~= Seq::<char>::empty());
        assert(decimal_reading(Seq::<char>::empty()) == 0);
        assert(decimal_reading(decimal_digits(n)) == decimal_reading(decimal_digits(n).drop_last()) * 10
            + digit_value(decimal_digits(n).last()));
        assert(decimal_digit_chars()[n as int] == digit_char(n as int));
        if n > 0 {
            assert(digit_value(decimal_digits(n)[0]) == n);
        }
    } else {
        lemma_decimal_digits_read_back(n / 10);
        lemma_digit_chars((n % 10) as int);
        let d = decimal_digits(n);
        assert(d.drop_last() =~= decimal_digits(n / 10));
        assert(d.last() == digit_char((n % 10) as int));
        assert(decimal_reading(d) == decimal_reading(d.drop_last()) * 10 + digit_value(d.last()));
        assert((n / 10) * 10 + n % 10 == n);
        assert(decimal_digit_chars()[(n % 10) as int] == digit_char((n % 10) as int));
        assert forall|k: int| 0 <= k < d.len() implies decimal_digit_chars().contains(
            #[trigger] d[k],
        ) by {
            if k < d.len() - 1 {
                assert(d[k] == decimal_digits(n / 10)[k]);
            }
        }
        assert(d[0] == decimal_digits(n / 10)[0]);
    }
}

proof fn lemma_zeros_prefix_read(z: nat, s: Seq<char>)
    ensures
        decimal_reading(zeros(z as int) + s) == decimal_reading(s) + decimal_reading(zeros(z as int)) * pow10(s.len()),
        decimal_reading(zeros(z as int)) == 0,
    decreases s.len(), z,
{
    if s.len() == 0 {
        assert(zeros(z as int) + s =~= zeros(z as int));
        lemma_zeros_read(z);
    } else {
        lemma_zeros_prefix_read(z, s.drop_last());
        assert((zeros(z as int) + s).drop_last() =~= zeros(z as int) + s.drop_last());
        lemma_zeros_read(z);
    }
}

proof fn lemma_zeros_read(z: nat)
    ensures
        decimal_reading(zeros(z as int)) == 0,
    decreases z,
{
    if z > 0 {
        lemma_zeros_read((z - 1) as nat);
        assert(zeros(z as int).drop_last() =~= zeros(z - 1));
    }
}

/// 10 to the power `k`.
pub open spec fn pow10(k: nat) -> int
    decreases k,
{
    if k == 0 {
        1
    } else {
        10 * pow10((k - 1) as nat)
    }
}

/// A non-negative field written zero-padded reads back as its value: the
/// padding adds nothing and every character is a decimal digit.
pub proof fn lemma_padded_decimal_reads_back(x: int, width: int)
    requires
        0 <= x,
    ensures
        decimal_reading(padded_decimal(x, width)) == x,
        forall|k: int|
            0 <= k < padded_decimal(x, width).len() ==> decimal_digit_chars().contains(
                #[trigger] padded_decimal(x, width)[k],
            ),
{
    let d = decimal_digits(x as nat);
    lemma_decimal_digits_read_back(x as nat);
    let z: int = width - d.len();
    let zn: nat = if z > 0 { z as nat } else { 0 };
    assert(zeros(z) =~= zeros(zn as int));
    lemma_zeros_prefix_read(zn, d);
    let p = padded_decimal(x, width);
    assert(p == zeros(zn as int) + d);
    assert(decimal_digit_chars()[0] == '0');
    assert forall|k: int| 0 <= k < p.len() implies decimal_digit_chars().contains(#[trigger] p[k]) by {
        if k < zn {
            assert(p[k] == '0');
        } else {
            assert(p[k] == d[k - zn]);
        }
    }
}

/// The timestamp of a time whose fields are not negative reads back field by
/// field: each field is a run of decimal digits that reads as its value,
/// whatever its width.
pub proof fn lemma_timestamp_fields_read_back(t: LocalTime)
    requires
        0 <= t.tm_year + 1900,
        0 <= t.tm_mon + 1,
        0 <= t.tm_mday,
        0 <= t.tm_hour,
        0 <= t.tm_min,
        0 <= t.tm_sec,
    ensures
        ({
            let y = padded_decimal(t.tm_year + 1900, 4);
            let mo = padded_decimal(t.tm_mon + 1, 2);
            let d = padded_decimal(t.tm_mday as int, 2);
            let h = padded_decimal(t.tm_hour as int, 2);
            let mi = padded_decimal(t.tm_min as int, 2);
            let sec = padded_decimal(t.tm_sec as int, 2);
            &&& timestamp_text(t) == y + seq!['-'] + mo + seq!['-'] + d + seq![' '] + h + seq![':']
                + mi + seq![':'] + sec
            &&& decimal_reading(y) == t.tm_year + 1900
            &&& decimal_reading(mo) == t.tm_mon + 1
            &&& decimal_reading(d) == t.tm_mday
            &&& decimal_reading(h) == t.tm_hour
            &&& decimal_reading(mi) == t.tm_min
            &&& decimal_reading(sec) == t.tm_sec
        }),
{
    lemma_padded_decimal_reads_back(t.tm_year + 1900, 4);
    lemma_padded_decimal_reads_back(t.tm_mon + 1, 2);
    lemma_padded_decimal_reads_back(t.tm_mday as int, 2);
    lemma_padded_decimal_reads_back(t.tm_hour as int, 2);
    lemma_padded_decimal_reads_back(t.tm_min as int, 2);
    lemma_padded_decimal_reads_back(t.tm_sec as int, 2);
}

} // verus!
