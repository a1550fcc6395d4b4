//! 256-bit unsigned integers held as 32 big-endian bytes: their value,
//! division by a small divisor, and decimal text.
use vstd::prelude::*;
use crate::text::{decimal, digit_char, numeral_of};

verus! {

broadcast use vstd::array::group_array_axioms;

/// Value of big-endian bytes.
pub open spec fn be_value(s: Seq<u8>) -> nat
    decreases s.len(),
{
    if s.len() == 0 {
        0
    } else {
        be_value(s.drop_last()) * 256 + s.last() as nat
    }
}

/// The value of a prefix extended by one byte.
pub proof fn lemma_be_value_push(s: Seq<u8>, b: u8)
    ensures
        be_value(s.push(b)) == be_value(s) * 256 + b,
{
    assert(s.push(b).drop_last() =~= s);
}

/// Big-endian bytes are below 256 to the power of their length.
pub open spec fn pow256(n: nat) -> nat
    decreases n,
{
    if n == 0 { 1 } else { 256 * pow256((n - 1) as nat) }
}

/// The value of `n` bytes is below 256^n.
pub proof fn lemma_be_value_bound(s: Seq<u8>)
    ensures
        be_value(s) < pow256(s.len()),
    decreases s.len(),
{
    if s.len() > 0 {
        lemma_be_value_bound(s.drop_last());
        let v = be_value(s.drop_last());
        let p = pow256((s.len() - 1) as nat);
        assert(v * 256 + s.last() < p * 256) by (nonlinear_arith)
            requires
                v < p,
                s.last() < 256,
        ;
    }
}

/// All-zero bytes have value zero.
pub proof fn lemma_be_value_zero(s: Seq<u8>)
    requires
        forall|i: int| 0 <= i < s.len() ==> s[i] == 0,
    ensures
        be_value(s) == 0,
    decreases s.len(),
{
    if s.len() > 0 {
        lemma_be_value_zero(s.drop_last());
    }
}

/// The value of bytes split at `n`: the high part shifted, plus the low part.
pub proof fn lemma_be_value_split(s: Seq<u8>, n: int)
    requires
        0 <= n <= s.len(),
    ensures
        be_value(s) == be_value(s.subrange(0, n)) * pow256((s.len() - n) as nat) + be_value(s.subrange(n, s.len() as int)),
    decreases s.len(),
{
    if n == s.len() {
        assert(s.subrange(0, n) =~= s);
        assert(s.subrange(n, s.len() as int) =~= Seq::<u8>::empty());
        assert(be_value(s) * 1 == be_value(s)) by (nonlinear_arith);
    } else {
        let t = s.drop_last();
        lemma_be_value_split(t, n);
        assert(t.subrange(0, n) =~= s.subrange(0, n));
        assert(s.subrange(n, s.len() as int) =~= t.subrange(n, t.len() as int).push(s.last()));
        lemma_be_value_push(t.subrange(n, t.len() as int), s.last());
        let a = be_value(s.subrange(0, n));
        let p = pow256((t.len() - n) as nat);
        let b = be_value(t.subrange(n, t.len() as int));
        assert(pow256((s.len() - n) as nat) == 256 * p);
        assert((a * p + b) * 256 + s.last() == a * (256 * p) + (b * 256 + s.last())) by (nonlinear_arith);
    }
}

/// 256^16 is 2^128.
proof fn lemma_pow256_16()
    ensures
        pow256(16) == 0x1_0000_0000_0000_0000_0000_0000_0000_0000nat,
{
    reveal_with_fuel(pow256, 17);
}

/// The value of bytes with one byte in front.
proof fn lemma_be_value_front(s: Seq<u8>)
    requires
        s.len() >= 1,
    ensures
        be_value(s) == s[0] * pow256((s.len() - 1) as nat) + be_value(s.subrange(1, s.len() as int)),
{
    lemma_be_value_split(s, 1);
    let one = s.subrange(0, 1);
    assert(one.drop_last() =~= Seq::<u8>::empty());
    assert(be_value(one) == be_value(one.drop_last()) * 256 + one.last());
    assert(be_value(one) == s[0]);
}

/// `x` as 32 big-endian bytes: sixteen zero bytes, then the sixteen bytes
/// of `x`, most significant first.
pub fn u128_to_be32(x: u128) -> (r: [u8; 32])
    ensures
        be_value(r@) == x,
{
    let mut r = [0u8; 32];
    let mut m: u128 = x;
    let mut i: usize = 32;
    proof {
        lemma_pow256_16();
        assert(r@.subrange(32, 32) =~= Seq::<u8>::empty());
        assert(be_value(r@.subrange(32, 32)) == 0);
        assert(pow256(0) == 1);
        assert((m as int) * pow256(0) == m as int);
    }
    while i > 16
        invariant
            16 <= i <= 32,
            forall|j: int| 0 <= j < i ==> r@[j] == 0,
            be_value(r@.subrange(i as int, 32)) + (m as int) * pow256((32 - i) as nat) == x,
            (m as int) < pow256((i - 16) as nat),
        decreases i,
    {
        let ghost old_r = r@;
        let ghost mo = m;
        i -= 1;
        let d: u8 = (m % 256) as u8;
        r[i] = d;
        m = m / 256;
        proof {
            assert(r@.subrange(i + 1, 32) =~= old_r.subrange(i + 1, 32));
            lemma_be_value_front(r@.subrange(i as int, 32));
            assert(r@.subrange(i as int, 32).subrange(1, (32 - i) as int) =~= r@.subrange(i + 1, 32));
            assert(r@.subrange(i as int, 32)[0] == d);
            let p = pow256((31 - i) as nat);
            assert(pow256((32 - i) as nat) == 256 * p);
            assert(mo == m * 256 + d);
            assert((mo as int) * p == (d as int) * p + (m as int) * (256 * p)) by (nonlinear_arith)
                requires
                    mo == m * 256 + d,
            ;
            let q = pow256((i - 16) as nat);
            assert(pow256((i + 1 - 16) as nat) == 256 * q);
            assert((m as int) < q) by (nonlinear_arith)
                requires
                    (mo as int) < 256 * q,
                    mo == m * 256 + d,
            ;
        }
    }
    proof {
        assert(m == 0);
        lemma_be_value_split(r@, 16);
        lemma_be_value_zero(r@.subrange(0, 16));
        assert(be_value(r@.subrange(0, 16)) * pow256(16) == 0) by (nonlinear_arith)
            requires
                be_value(r@.subrange(0, 16)) == 0,
        ;
    }
    r
}

/// Divides `v` by `d`: the quotient's bytes and the remainder.
pub fn div_small(v: &[u8; 32], d: u64) -> (r: ([u8; 32], u64))
    requires
        0 < d <= 1_000_000_000_000,
    ensures
        be_value(r.0@) == be_value(v@) / d as nat,
        r.1 == be_value(v@) % d as nat,
{
    let mut q = [0u8; 32];
    let mut rem: u64 = 0;
    let mut i: usize = 0;
    assert(v@.subrange(0, 0) =~= Seq::<u8>::empty());
    assert(q@.subrange(0, 0) =~= Seq::<u8>::empty());
    assert(be_value(Seq::<u8>::empty()) == 0);
    assert(0 * (d as int) == 0) by (nonlinear_arith);
    while i < 32
        invariant
            0 < d <= 1_000_000_000_000,
            i <= 32,
            rem < d,
            be_value(v@.subrange(0, i as int)) == be_value(q@.subrange(0, i as int)) * d + rem,
            forall|j: int| i <= j < 32 ==> q@[j] == 0,
        decreases 32 - i,
    {
        let cur: u64 = rem * 256 + v[i] as u64;
        let qi = cur / d;
        let ghost old_q = q@;
        let ghost old_rem = rem;
        proof {
            assert(cur < 256 * d) by (nonlinear_arith)
                requires
                    cur == old_rem * 256 + v@[i as int],
                    old_rem < d,
                    v@[i as int] < 256,
            ;
            assert(qi < 256) by (nonlinear_arith)
                requires
                    qi == cur / d,
                    cur < 256 * d,
                    d > 0,
            ;
        }
        q[i] = qi as u8;
        rem = cur % d;
        proof {
            assert(v@.subrange(0, i + 1) =~= v@.subrange(0, i as int).push(v@[i as int]));
            assert(q@.subrange(0, i + 1) =~= old_q.subrange(0, i as int).push(qi as u8));
            lemma_be_value_push(v@.subrange(0, i as int), v@[i as int]);
            lemma_be_value_push(old_q.subrange(0, i as int), qi as u8);
            let pv = be_value(v@.subrange(0, i as int));
            let pq = be_value(old_q.subrange(0, i as int));
            assert(pv * 256 + v@[i as int] == (pq * 256 + qi) * d + rem) by (nonlinear_arith)
                requires
                    pv == pq * d + old_rem,
                    cur == old_rem * 256 + v@[i as int],
                    qi == cur / d,
                    rem == cur % d,
                    d > 0,
            ;
        }
        i += 1;
    }
    proof {
        assert(v@.subrange(0, 32) =~= v@);
        assert(q@.subrange(0, 32) =~= q@);
        let bv = be_value(v@);
        let bq = be_value(q@);
        vstd::arithmetic::div_mod::lemma_fundamental_div_mod_converse(bv as int, d as int, bq as int, rem as int);
    }
    (q, rem)
}

/// True when all 32 bytes are zero, i.e. the value is zero.
pub fn is_zero_u256(v: &[u8; 32]) -> (r: bool)
    ensures
        r == (be_value(v@) == 0),
{
    let mut i: usize = 0;
    assert(v@.subrange(0, 0) =~= Seq::<u8>::empty());
    while i < 32
        invariant
            i <= 32,
            be_value(v@.subrange(0, i as int)) == 0,
        decreases 32 - i,
    {
        if v[i] != 0 {
            proof {
                lemma_be_value_push(v@.subrange(0, i as int), v@[i as int]);
                assert(v@.subrange(0, i + 1) =~= v@.subrange(0, i as int).push(v@[i as int]));
                lemma_be_value_prefix_le(v@, i + 1);
            }
            return false;
        }
        proof {
            lemma_be_value_push(v@.subrange(0, i as int), v@[i as int]);
            assert(v@.subrange(0, i + 1) =~= v@.subrange(0, i as int).push(v@[i as int]));
        }
        i += 1;
    }
    assert(v@.subrange(0, 32) =~= v@);
    true
}

/// A prefix's value is at most the whole's.
pub proof fn lemma_be_value_prefix_le(s: Seq<u8>, n: int)
    requires
        0 <= n <= s.len(),
    ensures
        be_value(s.subrange(0, n)) <= be_value(s),
    decreases s.len() - n,
{
    if n < s.len() {
        lemma_be_value_prefix_le(s, n + 1);
        assert(s.subrange(0, n + 1) =~= s.subrange(0, n).push(s[n]));
        lemma_be_value_push(s.subrange(0, n), s[n]);
        let a = be_value(s.subrange(0, n));
        assert(a <= a * 256 + s[n]) by (nonlinear_arith);
    } else {
        assert(s.subrange(0, n) =~= s);
    }
}

/// Decimal text of the value (as `U256`'s `Display` writes it).
pub fn u256_to_decimal(v: &[u8; 32]) -> (r: String)
    ensures
        r@ == decimal(be_value(v@)),
{
    let mut ds: Vec<u64> = Vec::new();
    let mut m: [u8; 32] = *v;
    let (q0, d0) = div_small(&m, 10);
    proof {
        lemma_decimal_step(be_value(m@));
    }
    ds.push(d0);
    m = q0;
    proof {
        assert(ds@.reverse() =~= seq![d0]);
        assert(seq![d0].drop_last() =~= Seq::<u64>::empty());
        assert(numeral_of(seq![d0]) == numeral_of(Seq::<u64>::empty()).push(digit_char(d0 as nat)));
        let x = decimal(be_value(m@));
        if be_value(m@) > 0 {
            assert(x.push(digit_char(d0 as nat)) =~= x + seq![digit_char(d0 as nat)]);
        }
    }
    // decimal(v) == decimal(m) ++ digits so far (most significant first), while m > 0
    while !is_zero_u256(&m)
        invariant
            forall|j: int| 0 <= j < ds@.len() ==> #[trigger] ds@[j] < 10,
            ds@.len() >= 1,
            be_value(m@) > 0 ==> decimal(be_value(v@)) == decimal(be_value(m@)) + numeral_of(ds@.reverse()),
            be_value(m@) == 0 ==> decimal(be_value(v@)) == numeral_of(ds@.reverse()),
        decreases be_value(m@),
    {
        let (q, d) = div_small(&m, 10);
        proof {
            lemma_decimal_step(be_value(m@));
            assert(ds@.push(d).reverse() =~= seq![d] + ds@.reverse());
            crate::text::lemma_numeral_cons(d, ds@.reverse());
            let x = decimal(be_value(q@));
            if be_value(q@) > 0 {
                assert(decimal(be_value(m@)) == x.push(digit_char(d as nat)));
                assert(x.push(digit_char(d as nat)) + numeral_of(ds@.reverse())
                    =~= x + (seq![digit_char(d as nat)] + numeral_of(ds@.reverse())));
            } else {
                assert(decimal(be_value(m@)) == seq![digit_char(d as nat)]);
            }
        }
        ds.push(d);
        m = q;
    }
    let mut out = String::new();
    let mut i: usize = ds.len();
    while i > 0
        invariant
            i <= ds@.len(),
            forall|j: int| 0 <= j < ds@.len() ==> #[trigger] ds@[j] < 10,
            out@ == numeral_of(ds@.reverse().subrange(0, (ds@.len() - i) as int)),
        decreases i,
    {
        i -= 1;
        let d = ds[i];
        out.append(crate::text::digit_str(d));
        proof {
            let k = (ds@.len() - i) as int;
            assert(ds@.reverse().subrange(0, k) =~= ds@.reverse().subrange(0, k - 1).push(ds@[i as int]));
            crate::text::lemma_numeral_push(ds@.reverse().subrange(0, k - 1), ds@[i as int]);
        }
    }
    assert(ds@.reverse().subrange(0, ds@.len() as int) =~= ds@.reverse());
    out
}

/// One step of writing a number in decimal: its last digit after the
/// digits of its tenth.
proof fn lemma_decimal_step(n: nat)
    ensures
        n >= 10 ==> decimal(n) == decimal(n / 10).push(digit_char(n % 10)),
        n < 10 ==> decimal(n) == seq![digit_char(n)],
        n < 10 ==> n / 10 == 0 && n % 10 == n,
{
}

} // verus!
