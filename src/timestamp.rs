//! The fixed-width `YYYYMMDDHHMMSSmmm` timestamp of a Prepare, kept at
//! second precision.

use vstd::prelude::*;

verus! {

pub open spec fn pow10(k: nat) -> nat
    decreases k,
{
    if k == 0 {
        1
    } else {
        10 * pow10((k - 1) as nat)
    }
}

pub open spec fn is_digit(b: u8) -> bool {
    48 <= b <= 57
}

pub open spec fn all_digits(s: Seq<u8>) -> bool {
    forall|i: int| 0 <= i < s.len() ==> is_digit(#[trigger] s[i])
}

/// The value of a string of ASCII decimal digits.
pub open spec fn dec_value(s: Seq<u8>) -> nat
    decreases s.len(),
{
    if s.len() == 0 {
        0
    } else {
        dec_value(s.drop_last()) * 10 + (s.last() - 48) as nat
    }
}

/// The `k` low-order decimal digits of `v` in ASCII, most significant first.
pub open spec fn dec_digits(v: nat, k: nat) -> Seq<u8>
    decreases k,
{
    if k == 0 {
        Seq::empty()
    } else {
        dec_digits(v / 10, (k - 1) as nat).push((48 + v % 10) as u8)
    }
}

pub open spec fn is_leap_year(y: int) -> bool {
    (y % 4 == 0 && y % 100 != 0) || y % 400 == 0
}

pub open spec fn days_in_month(y: int, m: int) -> int {
    if m == 2 {
        if is_leap_year(y) {
            29
        } else {
            28
        }
    } else if m == 4 || m == 6 || m == 9 || m == 11 {
        30
    } else {
        31
    }
}

/// A UTC instant with second precision, as calendar fields.
#[derive(Clone, Copy, Debug, PartialEq, Eq)]
pub struct Timestamp {
    pub year: u16,
    pub month: u8,
    pub day: u8,
    pub hour: u8,
    pub minute: u8,
    pub second: u8,
}

/// A real calendar date and time of day with a four-digit year.
pub open spec fn timestamp_valid(t: Timestamp) -> bool {
    &&& t.year <= 9999
    &&& 1 <= t.month <= 12
    &&& 1 <= t.day <= days_in_month(t.year as int, t.month as int)
    &&& t.hour < 24
    &&& t.minute < 60
    &&& t.second < 60
}

/// The 17 bytes that encode `t`; the milliseconds are written as zero.
pub open spec fn timestamp_bytes(t: Timestamp) -> Seq<u8> {
    dec_digits(t.year as nat, 4) + dec_digits(t.month as nat, 2) + dec_digits(t.day as nat, 2)
        + dec_digits(t.hour as nat, 2) + dec_digits(t.minute as nat, 2) + dec_digits(
        t.second as nat,
        2,
    ) + seq![48u8, 48u8, 48u8]
}

/// Reads 17 timestamp bytes; the milliseconds must be digits and are dropped.
pub open spec fn parse_timestamp(s: Seq<u8>) -> Option<Timestamp> {
    if s.len() != 17 {
        None
    } else if !(all_digits(s.subrange(0, 4)) && all_digits(s.subrange(4, 6)) && all_digits(
        s.subrange(6, 8),
    ) && all_digits(s.subrange(8, 10)) && all_digits(s.subrange(10, 12)) && all_digits(
        s.subrange(12, 14),
    ) && all_digits(s.subrange(14, 17))) {
        None
    } else {
        let t = Timestamp {
            year: dec_value(s.subrange(0, 4)) as u16,
            month: dec_value(s.subrange(4, 6)) as u8,
            day: dec_value(s.subrange(6, 8)) as u8,
            hour: dec_value(s.subrange(8, 10)) as u8,
            minute: dec_value(s.subrange(10, 12)) as u8,
            second: dec_value(s.subrange(12, 14)) as u8,
        };
        if timestamp_valid(t) {
            Some(t)
        } else {
            None
        }
    }
}

pub proof fn lemma_dec_digits(v: nat, k: nat)
    ensures
        dec_digits(v, k).len() == k,
        all_digits(dec_digits(v, k)),
        v < pow10(k) ==> dec_value(dec_digits(v, k)) == v,
    decreases k,
{
    if k > 0 {
        lemma_dec_digits(v / 10, (k - 1) as nat);
        let s = dec_digits(v, k);
        assert(s.drop_last() =~= dec_digits(v / 10, (k - 1) as nat));
        assert forall|i: int| 0 <= i < s.len() implies is_digit(#[trigger] s[i]) by {
            if i < s.len() - 1 {
                assert(s[i] == s.drop_last()[i]);
            }
        }
        if v < pow10(k) {
            let q = pow10((k - 1) as nat);
            assert(v / 10 < q) by (nonlinear_arith)
                requires
                    v < 10 * q,
            ;
        }
    }
}

pub proof fn lemma_dec_value_bound(s: Seq<u8>)
    requires
        all_digits(s),
    ensures
        dec_value(s) < pow10(s.len()),
    decreases s.len(),
{
    if s.len() > 0 {
        let p = s.drop_last();
        assert(all_digits(p)) by {
            assert forall|i: int| 0 <= i < p.len() implies is_digit(#[trigger] p[i]) by {
                assert(p[i] == s[i]);
            }
        }
        lemma_dec_value_bound(p);
        let a = dec_value(p);
        let q = pow10(p.len());
        let b = (s.last() - 48) as nat;
        assert(is_digit(s[s.len() - 1]));
        assert(a * 10 + b < 10 * q) by (nonlinear_arith)
            requires
                a < q,
                b < 10,
        ;
    }
}

/// Reading the bytes of a valid timestamp gives it back.
pub proof fn lemma_timestamp_round_trip(t: Timestamp)
    requires
        timestamp_valid(t),
    ensures
        timestamp_bytes(t).len() == 17,
        parse_timestamp(timestamp_bytes(t)) == Some(t),
{
    reveal_with_fuel(pow10, 5);
    lemma_dec_digits(t.year as nat, 4);
    lemma_dec_digits(t.month as nat, 2);
    lemma_dec_digits(t.day as nat, 2);
    lemma_dec_digits(t.hour as nat, 2);
    lemma_dec_digits(t.minute as nat, 2);
    lemma_dec_digits(t.second as nat, 2);
    let s = timestamp_bytes(t);
    assert(s.subrange(0, 4) =~= dec_digits(t.year as nat, 4));
    assert(s.subrange(4, 6) =~= dec_digits(t.month as nat, 2));
    assert(s.subrange(6, 8) =~= dec_digits(t.day as nat, 2));
    assert(s.subrange(8, 10) =~= dec_digits(t.hour as nat, 2));
    assert(s.subrange(10, 12) =~= dec_digits(t.minute as nat, 2));
    assert(s.subrange(12, 14) =~= dec_digits(t.second as nat, 2));
    assert(s.subrange(14, 17) =~= seq![48u8, 48u8, 48u8]);
    assert(all_digits(s.subrange(14, 17)));
}

/// Appends the `k` low-order decimal digits of `v`.
pub fn put_dec(out: &mut Vec<u8>, v: u64, k: usize)
    ensures
        final(out)@ == old(out)@ + dec_digits(v as nat, k as nat),
    decreases k,
{
    if k == 0 {
        assert(old(out)@ + dec_digits(v as nat, 0) =~= old(out)@);
    } else {
        put_dec(out, v / 10, k - 1);
        out.push((48 + v % 10) as u8);
        assert(final(out)@ =~= old(out)@ + dec_digits(v as nat, k as nat));
    }
}

/// Reads `k` ASCII decimal digits at `pos`, if they are all digits.
pub fn read_dec(buf: &[u8], pos: usize, k: usize) -> (r: Option<u64>)
    requires
        k <= 4,
        pos + k <= buf@.len(),
    ensures
        all_digits(buf@.subrange(pos as int, pos + k)) ==> (r matches Some(v) && v as nat
            == dec_value(buf@.subrange(pos as int, pos + k))),
        !all_digits(buf@.subrange(pos as int, pos + k)) ==> r is None,
        r matches Some(v) ==> v < 10000 && (v as nat) < pow10(k as nat),
{
    let mut acc: u64 = 0;
    let mut i: usize = 0;
    while i < k
        invariant
            k <= 4,
            pos + k <= buf@.len(),
            i <= k,
            all_digits(buf@.subrange(pos as int, pos + i)),
            acc as nat == dec_value(buf@.subrange(pos as int, pos + i)),
            acc < pow10(i as nat),
        decreases k - i,
    {
        let ghost prev = buf@.subrange(pos as int, pos + i);
        let ghost next = buf@.subrange(pos as int, pos + i + 1);
        assert(next.drop_last() =~= prev);
        assert(pos + i < buf.len());
        let b = buf[pos + i];
        if b < 48 || b > 57 {
            assert(!is_digit(buf@.subrange(pos as int, pos + k)[i as int]));
            return None;
        }
        proof {
            reveal_with_fuel(pow10, 5);
            assert(acc * 10 + 9 < 100000) by (nonlinear_arith)
                requires
                    acc < pow10(i as nat),
                    i < 4,
                    pow10(i as nat) <= 1000,
            {
            }
        }
        acc = acc * 10 + (b - 48) as u64;
        i += 1;
        assert forall|j: int| 0 <= j < next.len() implies is_digit(#[trigger] next[j]) by {
            if j < i - 1 {
                assert(next[j] == prev[j]);
            }
        }
        assert(acc < pow10(i as nat)) by {
            reveal_with_fuel(pow10, 2);
            lemma_dec_value_bound(next);
        }
    }
    proof {
        reveal_with_fuel(pow10, 5);
    }
    Some(acc)
}

pub fn days_in_month_of(y: u16, m: u8) -> (r: u8)
    ensures
        r == days_in_month(y as int, m as int),
{
    if m == 2 {
        if (y % 4 == 0 && y % 100 != 0) || y % 400 == 0 {
            29
        } else {
            28
        }
    } else if m == 4 || m == 6 || m == 9 || m == 11 {
        30
    } else {
        31
    }
}

impl Timestamp {
    /// Whether the fields make a real date and time with a four-digit year.
    pub fn is_valid(&self) -> (r: bool)
        ensures
            r == timestamp_valid(*self),
    {
        self.year <= 9999 && 1 <= self.month && self.month <= 12 && 1 <= self.day && self.day
            <= days_in_month_of(self.year, self.month) && self.hour < 24 && self.minute < 60
            && self.second < 60
    }

    /// Appends the 17 bytes of this timestamp.
    pub fn write_to(&self, out: &mut Vec<u8>)
        ensures
            final(out)@ == old(out)@ + timestamp_bytes(*self),
    {
        put_dec(out, self.year as u64, 4);
        put_dec(out, self.month as u64, 2);
        put_dec(out, self.day as u64, 2);
        put_dec(out, self.hour as u64, 2);
        put_dec(out, self.minute as u64, 2);
        put_dec(out, self.second as u64, 2);
        out.push(48);
        out.push(48);
        out.push(48);
        assert(final(out)@ =~= old(out)@ + timestamp_bytes(*self));
    }

    /// Reads the 17 timestamp bytes at `pos`.
    pub fn read_from(buf: &[u8], pos: usize) -> (r: Option<Timestamp>)
        requires
            pos + 17 <= buf@.len(),
        ensures
            r == parse_timestamp(buf@.subrange(pos as int, pos + 17)),
    {
        assert(pos + 17 <= buf.len());
        let ghost s = buf@.subrange(pos as int, pos + 17);
        assert(s.subrange(0, 4) =~= buf@.subrange(pos as int, pos + 4));
        assert(s.subrange(4, 6) =~= buf@.subrange(pos + 4, pos + 6));
        assert(s.subrange(6, 8) =~= buf@.subrange(pos + 6, pos + 8));
        assert(s.subrange(8, 10) =~= buf@.subrange(pos + 8, pos + 10));
        assert(s.subrange(10, 12) =~= buf@.subrange(pos + 10, pos + 12));
        assert(s.subrange(12, 14) =~= buf@.subrange(pos + 12, pos + 14));
        assert(s.subrange(14, 17) =~= buf@.subrange(pos + 14, pos + 17));
        let year = read_dec(buf, pos, 4);
        let month = read_dec(buf, pos + 4, 2);
        let day = read_dec(buf, pos + 6, 2);
        let hour = read_dec(buf, pos + 8, 2);
        let minute = read_dec(buf, pos + 10, 2);
        let second = read_dec(buf, pos + 12, 2);
        let millis = read_dec(buf, pos + 14, 3);
        match (year, month, day, hour, minute, second, millis) {
            (Some(y), Some(mo), Some(d), Some(h), Some(mi), Some(se), Some(_)) => {
                proof {
                    reveal_with_fuel(pow10, 3);
                }
                let t = Timestamp {
                    year: y as u16,
                    month: mo as u8,
                    day: d as u8,
                    hour: h as u8,
                    minute: mi as u8,
                    second: se as u8,
                };
                if t.is_valid() {
                    Some(t)
                } else {
                    None
                }
            },
            _ => None,
        }
    }
}

} // verus!
