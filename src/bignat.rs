//! Natural numbers of unbounded size, held as little-endian base-2^32 limbs.
//! Only what exact power comparisons need: multiplication by a small factor,
//! powers of a small base, and ordering.
use vstd::prelude::*;

verus! {

/// `b` raised to the natural exponent `e`.
pub open spec fn power(b: int, e: nat) -> int
    decreases e,
{
    if e == 0 {
        1
    } else {
        b * power(b, (e - 1) as nat)
    }
}

/// The radix of one limb.
pub open spec fn limb_radix() -> int {
    0x1_0000_0000
}

/// The number that the little-endian limbs `s` stand for.
pub open spec fn value_of(s: Seq<u32>) -> int
    decreases s.len(),
{
    if s.len() == 0 {
        0
    } else {
        value_of(s.drop_last()) + s.last() * power(limb_radix(), (s.len() - 1) as nat)
    }
}

/// A positive base has positive powers.
pub proof fn lemma_power_positive(b: int, e: nat)
    requires
        b >= 1,
    ensures
        power(b, e) >= 1,
    decreases e,
{
    if e > 0 {
        lemma_power_positive(b, (e - 1) as nat);
        assert(b * power(b, (e - 1) as nat) >= 1) by (nonlinear_arith)
            requires
                b >= 1,
                power(b, (e - 1) as nat) >= 1,
        ;
    }
}

/// A number of `n` limbs lies in `[0, radix^n)`.
proof fn lemma_value_bounds(s: Seq<u32>)
    ensures
        0 <= value_of(s) < power(limb_radix(), s.len()),
    decreases s.len(),
{
    if s.len() > 0 {
        let n = (s.len() - 1) as nat;
        lemma_value_bounds(s.drop_last());
        lemma_power_positive(limb_radix(), n);
        let p = power(limb_radix(), n);
        let v = value_of(s.drop_last());
        let d = s.last() as int;
        assert(0 <= v + d * p < limb_radix() * p) by (nonlinear_arith)
            requires
                0 <= v < p,
                0 <= d < limb_radix(),
                p >= 1,
        ;
    }
}

/// Appending a limb adds it at the next place.
proof fn lemma_value_push(s: Seq<u32>, d: u32)
    ensures
        value_of(s.push(d)) == value_of(s) + d * power(limb_radix(), s.len()),
{
    assert(s.push(d).drop_last() =~= s);
}

/// The prefix of `i + 1` limbs extends the prefix of `i` limbs by limb `i`.
proof fn lemma_value_prefix(s: Seq<u32>, i: int)
    requires
        0 <= i < s.len(),
    ensures
        value_of(s.take(i + 1)) == value_of(s.take(i)) + s[i] * power(limb_radix(), i as nat),
{
    assert(s.take(i + 1).drop_last() =~= s.take(i));
}

/// Multiplies the number held in `s` by `m`.
pub fn mul_small(s: &Vec<u32>, m: u64) -> (r: Vec<u32>)
    requires
        m <= 0x1_0000_0000,
        s@.len() < usize::MAX,
    ensures
        value_of(r@) == value_of(s@) * m,
        r@.len() == s@.len() + 1,
{
    let mut out: Vec<u32> = Vec::new();
    let mut carry: u64 = 0;
    let mut i: usize = 0;
    while i < s.len()
        invariant
            i <= s@.len(),
            out@.len() == i,
            carry < 0x1_0000_0000,
            m <= 0x1_0000_0000,
            value_of(out@) + carry * power(limb_radix(), i as nat) == value_of(s@.take(i as int)) * m,
        decreases s@.len() - i,
    {
        let d = s[i];
        assert((d as int) * (m as int) + carry <= 0xffff_ffff_ffff_ffff) by (nonlinear_arith)
            requires
                d < 0x1_0000_0000,
                m <= 0x1_0000_0000,
                carry < 0x1_0000_0000,
        ;
        let t: u64 = (d as u64) * m + carry;
        let low: u32 = (t % 0x1_0000_0000) as u32;
        let high: u64 = t / 0x1_0000_0000;
        assert(high < 0x1_0000_0000);
        proof {
            let p = power(limb_radix(), i as nat);
            let prev = value_of(out@);
            lemma_value_push(out@, low);
            lemma_value_prefix(s@, i as int);
            assert(power(limb_radix(), (i + 1) as nat) == limb_radix() * p);
            assert(t == low + high * limb_radix());
            let vi = value_of(s@.take(i as int));
            let vn = value_of(s@.take(i + 1));
            assert(prev + low * p + high * (limb_radix() * p) == vn * m)
                by (nonlinear_arith)
                requires
                    prev + carry * p == vi * m,
                    t == low + high * limb_radix(),
                    t == d * m + carry,
                    vn == vi + d * p,
            ;
        }
        out.push(low);
        carry = high;
        i = i + 1;
    }
    proof {
        lemma_value_push(out@, carry as u32);
        assert(s@.take(s@.len() as int) =~= s@);
    }
    out.push(carry as u32);
    out
}

/// The number `b^e`, for a base that fits one limb multiplication.
pub fn power_of(b: u64, e: u8) -> (r: Vec<u32>)
    requires
        b <= 0x1_0000_0000,
    ensures
        value_of(r@) == power(b as int, e as nat),
        r@.len() == e + 1,
{
    let mut acc: Vec<u32> = Vec::new();
    acc.push(1);
    proof {
        lemma_value_push(Seq::<u32>::empty(), 1);
        assert(acc@ =~= Seq::<u32>::empty().push(1));
    }
    let mut k: u8 = 0;
    while k < e
        invariant
            k <= e,
            b <= 0x1_0000_0000,
            acc@.len() == k + 1,
            value_of(acc@) == power(b as int, k as nat),
        decreases e - k,
    {
        acc = mul_small(&acc, b);
        assert(power(b as int, (k + 1) as nat) == b * power(b as int, k as nat));
        k = k + 1;
    }
    acc
}

/// Extends `s` with zero limbs up to `n` limbs; the number is unchanged.
fn pad_to(s: &mut Vec<u32>, n: usize)
    ensures
        value_of(final(s)@) == value_of(old(s)@),
        final(s)@.len() == if old(s)@.len() < n { n as int } else { old(s)@.len() as int },
{
    while s.len() < n
        invariant
            value_of(s@) == value_of(old(s)@),
            s@.len() >= old(s)@.len(),
            s@.len() > old(s)@.len() ==> s@.len() <= n,
        decreases n - s@.len(),
    {
        proof {
            lemma_value_push(s@, 0);
        }
        s.push(0);
    }
}

/// Whether the number held in `x` is below the one held in `y`.
pub fn less_than(x: &Vec<u32>, y: &Vec<u32>) -> (r: bool)
    ensures
        r == (value_of(x@) < value_of(y@)),
{
    let mut a = x.clone();
    let mut b = y.clone();
    let n = if a.len() < b.len() { b.len() } else { a.len() };
    pad_to(&mut a, n);
    pad_to(&mut b, n);
    let mut below = false;
    let mut i: usize = 0;
    while i < n
        invariant
            i <= n,
            a@.len() == n,
            b@.len() == n,
            below == (value_of(a@.take(i as int)) < value_of(b@.take(i as int))),
        decreases n - i,
    {
        proof {
            lemma_value_prefix(a@, i as int);
            lemma_value_prefix(b@, i as int);
            lemma_value_bounds(a@.take(i as int));
            lemma_value_bounds(b@.take(i as int));
            let p = power(limb_radix(), i as nat);
            let va = value_of(a@.take(i as int));
            let vb = value_of(b@.take(i as int));
            let da = a@[i as int] as int;
            let db = b@[i as int] as int;
            if da < db {
                assert(va + da * p < vb + db * p) by (nonlinear_arith)
                    requires
                        0 <= va < p,
                        0 <= vb,
                        da + 1 <= db,
                ;
            } else if da > db {
                assert(va + da * p > vb + db * p) by (nonlinear_arith)
                    requires
                        0 <= vb < p,
                        0 <= va,
                        db + 1 <= da,
                ;
            }
        }
        if a[i] < b[i] {
            below = true;
        } else if a[i] > b[i] {
            below = false;
        }
        i = i + 1;
    }
    proof {
        assert(a@.take(n as int) =~= a@);
        assert(b@.take(n as int) =~= b@);
    }
    below
}

} // verus!
