//! OER primitives: big-endian integers, variable-length lengths and
//! variable-length octet strings.

use vstd::prelude::*;

verus! {

/// `256^k`.
pub open spec fn pow256(k: nat) -> nat
    decreases k,
{
    if k == 0 {
        1
    } else {
        256 * pow256((k - 1) as nat)
    }
}

/// The value of a big-endian byte string.
pub open spec fn be_value(s: Seq<u8>) -> nat
    decreases s.len(),
{
    if s.len() == 0 {
        0
    } else {
        be_value(s.drop_last()) * 256 + s.last() as nat
    }
}

/// The `k` low-order bytes of `v`, most significant first.
pub open spec fn be_bytes(v: nat, k: nat) -> Seq<u8>
    decreases k,
{
    if k == 0 {
        Seq::empty()
    } else {
        be_bytes(v / 256, (k - 1) as nat).push((v % 256) as u8)
    }
}

/// The number of bytes needed to write `n` in big-endian order (at least one).
pub open spec fn byte_count(n: nat) -> nat
    decreases n,
{
    if n < 256 {
        1
    } else {
        1 + byte_count(n / 256)
    }
}

/// The OER variable-length encoding of a length: one byte below 128, else a
/// byte `0x80 | k` followed by the `k` big-endian bytes of the length.
pub open spec fn var_len_bytes(n: nat) -> Seq<u8> {
    if n < 128 {
        seq![n as u8]
    } else {
        seq![(128 + byte_count(n)) as u8] + be_bytes(n, byte_count(n))
    }
}

/// A variable-length octet string: its length prefix, then its bytes.
pub open spec fn var_octets(s: Seq<u8>) -> Seq<u8> {
    var_len_bytes(s.len()) + s
}

/// Reads a variable-length length at the start of `s`: the value and the
/// number of bytes it took.
pub open spec fn parse_var_len(s: Seq<u8>) -> Option<(nat, nat)> {
    if s.len() == 0 {
        None
    } else if s[0] < 128 {
        Some((s[0] as nat, 1))
    } else {
        let k = (s[0] - 128) as nat;
        if k == 0 || k > 8 || s.len() < 1 + k {
            None
        } else {
            Some((be_value(s.subrange(1, (1 + k) as int)), 1 + k))
        }
    }
}

/// Reads a variable-length octet string at the start of `s`: its contents and
/// the number of bytes it took.
pub open spec fn parse_var_octets(s: Seq<u8>) -> Option<(Seq<u8>, nat)> {
    match parse_var_len(s) {
        Some((n, c)) => if c + n <= s.len() {
            Some((s.subrange(c as int, (c + n) as int), c + n))
        } else {
            None
        },
        None => None,
    }
}

pub proof fn lemma_pow256_8()
    ensures
        pow256(8) == 0x1_0000_0000_0000_0000,
{
    reveal_with_fuel(pow256, 9);
}

pub proof fn lemma_pow256_mono(a: nat, b: nat)
    requires
        a <= b,
    ensures
        1 <= pow256(a) <= pow256(b),
    decreases b,
{
    if b > a {
        lemma_pow256_mono(a, (b - 1) as nat);
    } else if a > 0 {
        lemma_pow256_mono((a - 1) as nat, (a - 1) as nat);
    }
}

pub proof fn lemma_be_bytes_len(v: nat, k: nat)
    ensures
        be_bytes(v, k).len() == k,
    decreases k,
{
    if k > 0 {
        lemma_be_bytes_len(v / 256, (k - 1) as nat);
    }
}

pub proof fn lemma_be_value_bound(s: Seq<u8>)
    ensures
        be_value(s) < pow256(s.len()),
    decreases s.len(),
{
    if s.len() > 0 {
        let p = s.drop_last();
        lemma_be_value_bound(p);
        let a = be_value(p);
        let q = pow256(p.len());
        let b = s.last() as nat;
        assert(a * 256 + b < 256 * q) by (nonlinear_arith)
            requires
                a < q,
                b < 256,
        ;
    }
}

pub proof fn lemma_be_round_trip(v: nat, k: nat)
    requires
        v < pow256(k),
    ensures
        be_value(be_bytes(v, k)) == v,
    decreases k,
{
    if k == 0 {
    } else {
        let q = pow256((k - 1) as nat);
        assert(v / 256 < q) by (nonlinear_arith)
            requires
                v < 256 * q,
        ;
        lemma_be_round_trip(v / 256, (k - 1) as nat);
        let s = be_bytes(v, k);
        assert(s.drop_last() =~= be_bytes(v / 256, (k - 1) as nat));
        assert(v == (v / 256) * 256 + v % 256);
    }
}

pub proof fn lemma_byte_count(n: nat)
    ensures
        1 <= byte_count(n),
        n < pow256(byte_count(n)),
        byte_count(n) >= 2 ==> n >= pow256((byte_count(n) - 1) as nat),
        n < 0x1_0000_0000_0000_0000 ==> byte_count(n) <= 8,
        n >= 256 ==> byte_count(n) >= 2,
    decreases n,
{
    reveal_with_fuel(pow256, 2);
    if n >= 256 {
        let m = n / 256;
        lemma_byte_count(m);
        let q = pow256(byte_count(m));
        assert(pow256(byte_count(n)) == 256 * q);
        assert(n < 256 * q) by (nonlinear_arith)
            requires
                m < q,
                m == n / 256,
        ;
        if byte_count(m) >= 2 {
            let r = pow256((byte_count(m) - 1) as nat);
            assert(pow256((byte_count(n) - 1) as nat) == 256 * r);
            assert(n >= 256 * r) by (nonlinear_arith)
                requires
                    m >= r,
                    m == n / 256,
            ;
        }
        if n < 0x1_0000_0000_0000_0000 && byte_count(n) > 8 {
            lemma_pow256_mono(8, (byte_count(n) - 1) as nat);
            lemma_pow256_8();
        }
    }
}

pub proof fn lemma_var_len_round_trip(n: nat, rest: Seq<u8>)
    requires
        n < 0x1_0000_0000_0000_0000,
    ensures
        parse_var_len(var_len_bytes(n) + rest) == Some((n, var_len_bytes(n).len())),
        1 <= var_len_bytes(n).len() <= 9,
{
    let s = var_len_bytes(n) + rest;
    if n >= 128 {
        let k = byte_count(n);
        lemma_byte_count(n);
        lemma_be_bytes_len(n, k);
        lemma_be_round_trip(n, k);
        assert(s.subrange(1, (1 + k) as int) =~= be_bytes(n, k));
    }
}

pub proof fn lemma_var_octets_round_trip(x: Seq<u8>, rest: Seq<u8>)
    requires
        x.len() < 0x1_0000_0000_0000_0000,
    ensures
        parse_var_octets(var_octets(x) + rest) == Some((x, var_octets(x).len())),
        var_octets(x).len() <= x.len() + 9,
{
    let h = var_len_bytes(x.len());
    lemma_var_len_round_trip(x.len(), x + rest);
    assert(var_octets(x) + rest =~= h + (x + rest));
    assert((h + (x + rest)).subrange(h.len() as int, (h.len() + x.len()) as int) =~= x);
}

/// Appends the `k` low-order bytes of `v`, most significant first.
pub fn put_be(out: &mut Vec<u8>, v: u64, k: usize)
    ensures
        final(out)@ == old(out)@ + be_bytes(v as nat, k as nat),
    decreases k,
{
    if k == 0 {
        assert(old(out)@ + be_bytes(v as nat, 0) =~= old(out)@);
    } else {
        put_be(out, v / 256, k - 1);
        out.push((v % 256) as u8);
        assert(final(out)@ =~= old(out)@ + be_bytes(v as nat, k as nat));
    }
}

/// The number of bytes needed to write `n` in big-endian order.
pub fn count_bytes(n: u64) -> (k: usize)
    ensures
        k == byte_count(n as nat),
        1 <= k <= 8,
    decreases n,
{
    proof {
        lemma_byte_count(n as nat);
    }
    if n < 256 {
        1
    } else {
        1 + count_bytes(n / 256)
    }
}

/// Appends the variable-length encoding of `n`.
pub fn put_var_len(out: &mut Vec<u8>, n: usize)
    ensures
        final(out)@ == old(out)@ + var_len_bytes(n as nat),
{
    if n < 128 {
        out.push(n as u8);
        assert(final(out)@ =~= old(out)@ + var_len_bytes(n as nat));
    } else {
        let k = count_bytes(n as u64);
        out.push((128 + k) as u8);
        put_be(out, n as u64, k);
        assert(final(out)@ =~= old(out)@ + var_len_bytes(n as nat));
    }
}

/// Appends `s` as a variable-length octet string.
pub fn put_var_octets(out: &mut Vec<u8>, s: &[u8])
    ensures
        final(out)@ == old(out)@ + var_octets(s@),
{
    put_var_len(out, s.len());
    let mut i: usize = 0;
    let ghost mid = out@;
    while i < s.len()
        invariant
            i <= s.len(),
            out@ == mid + s@.subrange(0, i as int),
            mid == old(out)@ + var_len_bytes(s@.len()),
        decreases s.len() - i,
    {
        out.push(s[i]);
        i += 1;
        assert(out@ =~= mid + s@.subrange(0, i as int));
    }
    assert(s@.subrange(0, s.len() as int) =~= s@);
    assert(out@ =~= old(out)@ + var_octets(s@));
}

/// Reads the `k` big-endian bytes at `pos`.
pub fn read_be(buf: &[u8], pos: usize, k: usize) -> (r: u64)
    requires
        k <= 8,
        pos + k <= buf@.len(),
    ensures
        r as nat == be_value(buf@.subrange(pos as int, pos + k)),
{
    let mut acc: u64 = 0;
    let mut i: usize = 0;
    while i < k
        invariant
            k <= 8,
            pos + k <= buf@.len(),
            i <= k,
            acc as nat == be_value(buf@.subrange(pos as int, pos + i)),
        decreases k - i,
    {
        let ghost next = buf@.subrange(pos as int, pos + i + 1);
        assert(next.drop_last() =~= buf@.subrange(pos as int, pos + i));
        proof {
            lemma_be_value_bound(next);
            lemma_pow256_mono((i + 1) as nat, 8);
            lemma_pow256_8();
        }
        assert(pos + i < buf.len());
        let b = buf[pos + i];
        acc = acc * 256 + b as u64;
        i += 1;
    }
    acc
}

/// Reads a variable-length length at `pos`: its value and the position after it.
pub fn read_var_len(buf: &[u8], pos: usize) -> (r: Option<(u64, usize)>)
    requires
        pos <= buf@.len(),
    ensures
        match parse_var_len(buf@.subrange(pos as int, buf@.len() as int)) {
            Some((n, c)) => r == Some((n as u64, (pos + c) as usize)) && n < 0x1_0000_0000_0000_0000,
            None => r.is_none(),
        },
{
    let ghost s = buf@.subrange(pos as int, buf@.len() as int);
    if pos >= buf.len() {
        return None;
    }
    let b = buf[pos];
    if b < 128 {
        return Some((b as u64, pos + 1));
    }
    let k = (b - 128) as usize;
    if k == 0 || k > 8 || buf.len() - pos < 1 + k {
        return None;
    }
    let v = read_be(buf, pos + 1, k);
    assert(s.subrange(1, 1 + k) =~= buf@.subrange(pos + 1, pos + 1 + k));
    Some((v, pos + 1 + k))
}

/// Reads a variable-length octet string at `pos`: where its contents start
/// and end.
pub fn read_var_octets(buf: &[u8], pos: usize) -> (r: Option<(usize, usize)>)
    requires
        pos <= buf@.len(),
    ensures
        match parse_var_octets(buf@.subrange(pos as int, buf@.len() as int)) {
            Some((x, c)) => r matches Some((start, end)) && pos <= start <= end <= buf@.len()
                && end == pos + c && x == buf@.subrange(start as int, end as int),
            None => r.is_none(),
        },
{
    let ghost s = buf@.subrange(pos as int, buf@.len() as int);
    match read_var_len(buf, pos) {
        None => None,
        Some((n, start)) => {
            if n > (buf.len() - start) as u64 {
                None
            } else {
                let end = start + n as usize;
                assert(s.subrange((start - pos) as int, (end - pos) as int)
                    =~= buf@.subrange(start as int, end as int));
                Some((start, end))
            }
        },
    }
}

} // verus!
