//! QUIC variable-length integers: the two high bits of the first byte give
//! the encoded length (1, 2, 4 or 8 bytes), the other bits carry the value
//! in network byte order.
use vstd::prelude::*;
use vstd::arithmetic::div_mod::{lemma_div_denominator, lemma_mod_breakdown, lemma_multiply_divide_lt, lemma_small_mod};

verus! {

/// `256^n`.
pub open spec fn pow256(n: nat) -> nat
    decreases n,
{
    if n == 0 {
        1
    } else {
        256 * pow256((n - 1) as nat)
    }
}

/// The big-endian value of a byte sequence.
pub open spec fn be_value(s: Seq<u8>) -> nat
    decreases s.len(),
{
    if s.len() == 0 {
        0
    } else {
        be_value(s.drop_last()) * 256 + s.last() as nat
    }
}

/// The encoded length that the first byte of a varint declares.
pub open spec fn varint_len(first: u8) -> nat {
    if first < 64 {
        1
    } else if first < 128 {
        2
    } else if first < 192 {
        4
    } else {
        8
    }
}

/// The value of the varint at the start of `s`: the declared prefix, with the
/// two length bits cleared, read big-endian.
pub open spec fn varint_value(s: Seq<u8>) -> nat
    recommends
        s.len() >= 1,
        s.len() >= varint_len(s[0]),
{
    be_value(s.update(0, (s[0] % 64) as u8).subrange(0, varint_len(s[0]) as int))
}

/// The varint that starts at `i` in `d`, where it lies wholly in `d`: its
/// value and its length.
pub open spec fn varint_at(d: Seq<u8>, i: int) -> Option<(nat, nat)> {
    if 0 <= i < d.len() && i + varint_len(d[i]) <= d.len() {
        Some((varint_value(d.subrange(i, d.len() as int)), varint_len(d[i])))
    } else {
        None
    }
}

/// Whether `s` starts with a whole varint.
pub open spec fn varint_fits(s: Seq<u8>) -> bool {
    s.len() >= 1 && s.len() >= varint_len(s[0])
}

/// The `n` low-order bytes of `v`, most significant first.
pub open spec fn be_bytes(v: nat, n: nat) -> Seq<u8>
    decreases n,
{
    if n == 0 {
        seq![]
    } else {
        be_bytes(v / 256, (n - 1) as nat).push((v % 256) as u8)
    }
}

/// The two length bits for an encoding of `n` bytes.
pub open spec fn varint_tag(n: nat) -> nat {
    if n == 1 {
        0
    } else if n == 2 {
        1
    } else if n == 4 {
        2
    } else {
        3
    }
}

/// The `n`-byte varint encoding of `v`.
pub open spec fn varint_encode(v: nat, n: nat) -> Seq<u8> {
    let b = be_bytes(v, n);
    b.update(0, (b[0] + varint_tag(n) * 64) as u8)
}

proof fn lemma_pow256_mono(a: nat, b: nat)
    requires
        a <= b,
    ensures
        pow256(a) <= pow256(b),
    decreases b,
{
    if a < b {
        lemma_pow256_mono(a, (b - 1) as nat);
    }
}

proof fn lemma_pow256_6()
    ensures
        pow256(6) == 0x1000000000000,
{
    reveal_with_fuel(pow256, 7);
}

/// The encoded length that the first byte of a varint declares.
pub fn varint_length(first: u8) -> (r: usize)
    ensures
        r == varint_len(first),
{
    if first < 64 {
        1
    } else if first < 128 {
        2
    } else if first < 192 {
        4
    } else {
        8
    }
}

/// Reads the varint at `i` in `data`, where it lies wholly in `data`: its
/// value and its length.
pub fn read_varint_at(data: &[u8], i: usize) -> (r: Option<(u64, usize)>)
    ensures
        r is Some <==> varint_at(data@, i as int) is Some,
        r is Some ==> varint_at(data@, i as int) == Some(((r->0).0 as nat, (r->0).1 as nat)),
{
    if i >= data.len() {
        return None;
    }
    if varint_length(data[i]) > data.len() - i {
        return None;
    }
    let rest = vstd::slice::slice_subrange(data, i, data.len());
    assert(rest@ == data@.subrange(i as int, data@.len() as int));
    let (v, n) = read_variable_length_int(rest);
    Some((v, n))
}

/// Reads the varint at the start of `data` and returns its value with the
/// number of bytes it takes.
pub fn read_variable_length_int(data: &[u8]) -> (r: (u64, usize))
    requires
        varint_fits(data@),
    ensures
        r.1 == varint_len(data@[0]),
        r.0 == varint_value(data@),
{
    let first = data[0];
    let len = varint_length(first);
    let ghost m = data@.update(0, (first % 64) as u8);
    let mut v: u64 = (first % 64) as u64;
    let mut i: usize = 1;
    proof {
        let s1 = m.subrange(0, 1);
        assert(s1.drop_last() =~= Seq::<u8>::empty());
        assert(be_value(s1.drop_last()) == 0);
        assert(be_value(s1) == v);
        reveal_with_fuel(pow256, 1);
    }
    while i < len
        invariant
            1 <= i <= len,
            len == varint_len(first),
            first == data@[0],
            len <= 8,
            data@.len() >= len,
            m == data@.update(0, (first % 64) as u8),
            v == be_value(m.subrange(0, i as int)),
            v < 64 * pow256((i - 1) as nat),
        decreases len - i,
    {
        let b = data[i];
        proof {
            lemma_pow256_mono((i - 1) as nat, 6);
            lemma_pow256_6();
            let p = pow256((i - 1) as nat);
            assert(v * 256 + b < 64 * (256 * p)) by (nonlinear_arith)
                requires
                    v < 64 * p,
                    b < 256,
            ;
            assert(m.subrange(0, i + 1).drop_last() =~= m.subrange(0, i as int));
            assert(m[i as int] == b);
        }
        v = v * 256 + b as u64;
        i = i + 1;
    }
    (v, len)
}

proof fn lemma_pow256_positive(n: nat)
    ensures
        pow256(n) > 0,
    decreases n,
{
    if n > 0 {
        lemma_pow256_positive((n - 1) as nat);
    }
}

proof fn lemma_be_bytes(v: nat, n: nat)
    ensures
        be_bytes(v, n).len() == n,
        be_value(be_bytes(v, n)) == v % pow256(n),
        n >= 1 ==> be_bytes(v, n)[0] == v / pow256((n - 1) as nat) % 256,
    decreases n,
{
    if n == 0 {
        lemma_small_mod(0, 1);
        assert(v % 1 == 0);
    } else {
        let m = (n - 1) as nat;
        lemma_be_bytes(v / 256, m);
        lemma_pow256_positive(m);
        let b = be_bytes(v, n);
        assert(b.drop_last() =~= be_bytes(v / 256, m));
        lemma_mod_breakdown(v as int, 256, pow256(m) as int);
        assert(b[0] == v / pow256(m) % 256) by {
            if m >= 1 {
                let q = pow256((m - 1) as nat);
                lemma_pow256_positive((m - 1) as nat);
                lemma_div_denominator(v as int, 256, q as int);
                assert(pow256(m) == 256 * q);
                assert(b[0] == be_bytes(v / 256, m)[0]);
                assert(b[0] == (v / 256) / q % 256);
                assert(v / pow256(m) == (v / 256) / q);
            } else {
                assert(pow256(0) == 1);
                assert(v / 1 == v);
                assert(b[0] == v % 256);
            }
        }
    }
}

/// Encoding a value in `n` bytes (1, 2, 4 or 8), where it fits in the
/// `8 * n - 2` bits that such an encoding carries, and decoding the result
/// gives back the value and the length `n`.
pub proof fn varint_round_trip(v: nat, n: nat)
    requires
        n == 1 || n == 2 || n == 4 || n == 8,
        v < 64 * pow256((n - 1) as nat),
    ensures
        varint_encode(v, n).len() == n,
        varint_fits(varint_encode(v, n)),
        varint_len(varint_encode(v, n)[0]) == n,
        varint_value(varint_encode(v, n)) == v,
{
    let p = pow256((n - 1) as nat);
    lemma_pow256_positive((n - 1) as nat);
    lemma_be_bytes(v, n);
    let b = be_bytes(v, n);
    lemma_multiply_divide_lt(v as int, p as int, 64);
    let b0 = b[0];
    assert(b0 < 64);
    let e = varint_encode(v, n);
    let t = varint_tag(n);
    assert(e[0] == b0 + t * 64);
    assert(e[0] % 64 == b0);
    assert(e.update(0, (e[0] % 64) as u8).subrange(0, n as int) =~= b);
    assert(pow256(n) == 256 * p);
    lemma_small_mod(v, pow256(n));
}

/// Decoding reads only the bytes that the first byte declares: a sequence
/// that agrees with `a` on them decodes to the same value.
pub proof fn varint_reads_declared_prefix(a: Seq<u8>, b: Seq<u8>)
    requires
        varint_fits(a),
        b.len() >= varint_len(a[0]),
        a.subrange(0, varint_len(a[0]) as int) == b.subrange(0, varint_len(a[0]) as int),
    ensures
        b[0] == a[0],
        varint_fits(b),
        varint_value(a) == varint_value(b),
{
    let n = varint_len(a[0]) as int;
    assert forall|i: int| 0 <= i < n implies a[i] == b[i] by {
        assert(a.subrange(0, n)[i] == b.subrange(0, n)[i]);
    }
    assert(a.update(0, (a[0] % 64) as u8).subrange(0, n) =~= b.update(0, (b[0] % 64) as u8).subrange(0, n));
}

} // verus!
