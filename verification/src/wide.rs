//! Wide natural-number arithmetic: just enough to compare the exact
//! eleventh-power products the gamma stage decides on. Numbers are limb
//! sequences in base 2^51, least significant first, each limb held in a
//! `u64`.

use vstd::prelude::*;

verus! {

use crate::util::{lemma_div_lt, lemma_mul_le};
use vstd::arithmetic::div_mod::lemma_fundamental_div_mod;

/// The natural number a limb sequence denotes.
pub open spec fn wide_value(s: Seq<u64>) -> int
    decreases s.len(),
{
    if s.len() == 0 {
        0
    } else {
        s[0] + 0x8000000000000 * wide_value(s.drop_first())
    }
}

/// Every limb is below the radix.
pub open spec fn limbs_ok(s: Seq<u64>) -> bool {
    forall|i: int| 0 <= i < s.len() ==> #[trigger] s[i] < 0x8000000000000
}

/// The radix raised to `n`: the weight of limb `n`.
pub open spec fn limb_weight(n: nat) -> int
    decreases n,
{
    if n == 0 {
        1
    } else {
        0x8000000000000 * limb_weight((n - 1) as nat)
    }
}

/// Appending a limb adds its weighted value.
proof fn lemma_value_push(s: Seq<u64>, x: u64)
    ensures
        wide_value(s.push(x)) == wide_value(s) + x * limb_weight(s.len()),
    decreases s.len(),
{
    if s.len() == 0 {
        assert(s.push(x).drop_first() =~= Seq::<u64>::empty());
        assert(wide_value(Seq::<u64>::empty()) == 0);
        assert(wide_value(s.push(x)) == x + 0x8000000000000 * 0);
        assert(limb_weight(s.len()) == 1);
        assert(x * 1 == x) by (nonlinear_arith);
    } else {
        assert(s.push(x).drop_first() =~= s.drop_first().push(x));
        lemma_value_push(s.drop_first(), x);
        assert(wide_value(s.push(x)) == wide_value(s) + x * limb_weight(s.len()))
            by (nonlinear_arith)
            requires
                wide_value(s.push(x)) == s[0] + 0x8000000000000 * wide_value(
                    s.drop_first().push(x),
                ),
                wide_value(s.drop_first().push(x)) == wide_value(s.drop_first()) + x * limb_weight(
                    (s.len() - 1) as nat,
                ),
                wide_value(s) == s[0] + 0x8000000000000 * wide_value(s.drop_first()),
                limb_weight(s.len()) == 0x8000000000000 * limb_weight((s.len() - 1) as nat),
        ;
    }
}

/// A limb sequence's value is nonnegative and below the weight of the
/// limb past its end.
proof fn lemma_value_bound(s: Seq<u64>)
    requires
        limbs_ok(s),
    ensures
        0 <= wide_value(s) < limb_weight(s.len()),
    decreases s.len(),
{
    if s.len() > 0 {
        lemma_value_bound(s.drop_first());
        assert(0 <= wide_value(s) < limb_weight(s.len())) by (nonlinear_arith)
            requires
                wide_value(s) == s[0] + 0x8000000000000 * wide_value(s.drop_first()),
                0 <= s[0] < 0x8000000000000,
                0 <= wide_value(s.drop_first()) < limb_weight((s.len() - 1) as nat),
                limb_weight(s.len()) == 0x8000000000000 * limb_weight((s.len() - 1) as nat),
        ;
    }
}

/// A value splits at any limb: the low part plus the weighted tail.
proof fn lemma_value_split(s: Seq<u64>, j: int)
    requires
        0 <= j <= s.len(),
    ensures
        wide_value(s) == wide_value(s.take(j)) + limb_weight(j as nat) * wide_value(s.skip(j)),
    decreases j,
{
    if j == 0 {
        assert(s.take(0) =~= Seq::<u64>::empty());
        assert(s.skip(0) =~= s);
    } else {
        assert(s.take(j).drop_first() =~= s.drop_first().take(j - 1));
        assert(s.skip(j) =~= s.drop_first().skip(j - 1));
        lemma_value_split(s.drop_first(), j - 1);
        assert(wide_value(s) == wide_value(s.take(j)) + limb_weight(j as nat) * wide_value(
            s.skip(j),
        )) by (nonlinear_arith)
            requires
                wide_value(s) == s[0] + 0x8000000000000 * wide_value(s.drop_first()),
                wide_value(s.take(j)) == s[0] + 0x8000000000000 * wide_value(
                    s.take(j).drop_first(),
                ),
                s.take(j).drop_first() == s.drop_first().take(j - 1),
                s.skip(j) == s.drop_first().skip(j - 1),
                wide_value(s.drop_first()) == wide_value(s.drop_first().take(j - 1)) + limb_weight(
                    (j - 1) as nat,
                ) * wide_value(s.drop_first().skip(j - 1)),
                limb_weight(j as nat) == 0x8000000000000 * limb_weight((j - 1) as nat),
        ;
    }
}

/// A number from a value below the radix.
fn wide_from_small(x: u64) -> (r: Vec<u64>)
    requires
        x < 0x8000000000000,
    ensures
        limbs_ok(r@),
        wide_value(r@) == x,
{
    let mut r: Vec<u64> = Vec::new();
    r.push(x);
    proof {
        assert(r@.drop_first() =~= Seq::<u64>::empty());
        assert(wide_value(Seq::<u64>::empty()) == 0);
        assert(wide_value(r@) == x + 0x8000000000000 * 0);
    }
    r
}

/// Multiplies by a value below the radix, one carry pass.
fn wide_mul_small(a: &Vec<u64>, m: u64) -> (r: Vec<u64>)
    requires
        limbs_ok(a@),
        m < 0x8000000000000,
    ensures
        limbs_ok(r@),
        wide_value(r@) == wide_value(a@) * m,
{
    let n = a.len();
    let mut out: Vec<u64> = Vec::new();
    let mut carry: u64 = 0;
    let mut i: usize = 0;
    while i < n
        invariant
            i <= n,
            n == a@.len(),
            limbs_ok(a@),
            m < 0x8000000000000,
            carry < 0x8000000000000,
            limbs_ok(out@),
            out@.len() == i,
            wide_value(out@) + carry * limb_weight(i as nat) == wide_value(a@.take(i as int)) * m,
        decreases n - i,
    {
        proof {
            assert(a@[i as int] < 0x8000000000000);
            lemma_mul_le(a@[i as int] as int, m as int, 0x7FFFFFFFFFFFF, 0x7FFFFFFFFFFFF);
        }
        let x: u128 = a[i] as u128 * m as u128 + carry as u128;
        let lo: u64 = (x % 0x8000000000000) as u64;
        let c2: u128 = x / 0x8000000000000;
        proof {
            lemma_div_lt(x as int, 0x8000000000000, 0x8000000000000);
            lemma_fundamental_div_mod(x as int, 0x8000000000000);
            lemma_value_push(out@, lo);
            assert(a@.take(i + 1).drop_last() =~= a@.take(i as int));
            assert(a@.take(i + 1) =~= a@.take(i as int).push(a@[i as int]));
            lemma_value_push(a@.take(i as int), a@[i as int]);
            assert(wide_value(out@.push(lo)) + (c2 as int) * limb_weight((i + 1) as nat)
                == wide_value(a@.take(i + 1)) * m) by (nonlinear_arith)
                requires
                    wide_value(out@.push(lo)) == wide_value(out@) + lo * limb_weight(i as nat),
                    wide_value(out@) + carry * limb_weight(i as nat) == wide_value(
                        a@.take(i as int),
                    ) * m,
                    x == a@[i as int] * m + carry,
                    x == 0x8000000000000 * (c2 as int) + lo,
                    limb_weight((i + 1) as nat) == 0x8000000000000 * limb_weight(i as nat),
                    wide_value(a@.take(i + 1)) == wide_value(a@.take(i as int)) + a@[i as int]
                        * limb_weight(i as nat),
            ;
        }
        out.push(lo);
        carry = c2 as u64;
        i = i + 1;
    }
    proof {
        assert(a@.take(n as int) =~= a@);
    }
    if carry > 0 {
        proof {
            lemma_value_push(out@, carry);
        }
        out.push(carry);
    }
    out
}

/// Adds two numbers of equal length, one carry pass.
fn wide_add(a: &Vec<u64>, b: &Vec<u64>) -> (r: Vec<u64>)
    requires
        limbs_ok(a@),
        limbs_ok(b@),
        a@.len() == b@.len(),
    ensures
        limbs_ok(r@),
        wide_value(r@) == wide_value(a@) + wide_value(b@),
{
    let n = a.len();
    let mut out: Vec<u64> = Vec::new();
    let mut carry: u64 = 0;
    let mut i: usize = 0;
    while i < n
        invariant
            i <= n,
            n == a@.len(),
            n == b@.len(),
            limbs_ok(a@),
            limbs_ok(b@),
            carry <= 1,
            limbs_ok(out@),
            out@.len() == i,
            wide_value(out@) + carry * limb_weight(i as nat) == wide_value(a@.take(i as int))
                + wide_value(b@.take(i as int)),
        decreases n - i,
    {
        proof {
            assert(a@[i as int] < 0x8000000000000 && b@[i as int] < 0x8000000000000);
        }
        let x: u64 = a[i] + b[i] + carry;
        let lo: u64 = x % 0x8000000000000;
        let c2: u64 = x / 0x8000000000000;
        proof {
            lemma_div_lt(x as int, 0x8000000000000, 2);
            lemma_fundamental_div_mod(x as int, 0x8000000000000);
            lemma_value_push(out@, lo);
            assert(a@.take(i + 1) =~= a@.take(i as int).push(a@[i as int]));
            assert(b@.take(i + 1) =~= b@.take(i as int).push(b@[i as int]));
            lemma_value_push(a@.take(i as int), a@[i as int]);
            lemma_value_push(b@.take(i as int), b@[i as int]);
            assert(wide_value(out@.push(lo)) + (c2 as int) * limb_weight((i + 1) as nat)
                == wide_value(a@.take(i + 1)) + wide_value(b@.take(i + 1))) by (nonlinear_arith)
                requires
                    wide_value(out@.push(lo)) == wide_value(out@) + lo * limb_weight(i as nat),
                    wide_value(out@) + carry * limb_weight(i as nat) == wide_value(
                        a@.take(i as int),
                    ) + wide_value(b@.take(i as int)),
                    x == a@[i as int] + b@[i as int] + carry,
                    x == 0x8000000000000 * (c2 as int) + lo,
                    limb_weight((i + 1) as nat) == 0x8000000000000 * limb_weight(i as nat),
                    wide_value(a@.take(i + 1)) == wide_value(a@.take(i as int)) + a@[i as int]
                        * limb_weight(i as nat),
                    wide_value(b@.take(i + 1)) == wide_value(b@.take(i as int)) + b@[i as int]
                        * limb_weight(i as nat),
            ;
        }
        out.push(lo);
        carry = c2;
        i = i + 1;
    }
    proof {
        assert(a@.take(n as int) =~= a@);
        assert(b@.take(n as int) =~= b@);
    }
    if carry > 0 {
        proof {
            lemma_value_push(out@, carry);
        }
        out.push(carry);
    }
    out
}

/// Pads with high zero limbs up to `len`; the value is unchanged.
fn wide_pad(a: &Vec<u64>, len: usize) -> (r: Vec<u64>)
    requires
        limbs_ok(a@),
    ensures
        limbs_ok(r@),
        wide_value(r@) == wide_value(a@),
        r@.len() == if a@.len() >= len {
            a@.len() as int
        } else {
            len as int
        },
{
    let mut out: Vec<u64> = Vec::new();
    let n = a.len();
    let mut i: usize = 0;
    while i < n
        invariant
            i <= n,
            n == a@.len(),
            limbs_ok(a@),
            out@ == a@.take(i as int),
        decreases n - i,
    {
        proof {
            assert(a@.take(i + 1) =~= a@.take(i as int).push(a@[i as int]));
        }
        out.push(a[i]);
        i = i + 1;
    }
    proof {
        assert(a@.take(n as int) =~= a@);
    }
    while out.len() < len
        invariant
            limbs_ok(out@),
            wide_value(out@) == wide_value(a@),
            out@.len() >= a@.len(),
            out@.len() <= len || out@.len() == a@.len(),
        decreases len - out.len(),
    {
        proof {
            lemma_value_push(out@, 0);
        }
        out.push(0);
    }
    out
}

/// Shifts up by one limb: multiplies by the radix.
fn wide_shift(a: &Vec<u64>) -> (r: Vec<u64>)
    requires
        limbs_ok(a@),
    ensures
        limbs_ok(r@),
        wide_value(r@) == 0x8000000000000 * wide_value(a@),
{
    let mut out: Vec<u64> = Vec::new();
    out.push(0);
    let n = a.len();
    let mut i: usize = 0;
    while i < n
        invariant
            i <= n,
            n == a@.len(),
            limbs_ok(a@),
            out@ == seq![0u64] + a@.take(i as int),
        decreases n - i,
    {
        proof {
            assert(seq![0u64] + a@.take(i + 1) =~= (seq![0u64] + a@.take(i as int)).push(
                a@[i as int],
            ));
        }
        out.push(a[i]);
        i = i + 1;
    }
    proof {
        assert(a@.take(n as int) =~= a@);
        assert(out@.drop_first() =~= a@);
        assert(out@.len() > 0 && out@[0] == 0);
    }
    out
}

/// Multiplies by any value below 2^102, split into two radix digits.
pub fn wide_mul(a: &Vec<u64>, m: u128) -> (r: Vec<u64>)
    requires
        limbs_ok(a@),
        m < 0x40000000000000000000000000,
    ensures
        limbs_ok(r@),
        wide_value(r@) == wide_value(a@) * m,
{
    let ml: u64 = (m % 0x8000000000000) as u64;
    let mh: u64 = (m / 0x8000000000000) as u64;
    proof {
        lemma_div_lt(m as int, 0x8000000000000, 0x8000000000000);
        lemma_fundamental_div_mod(m as int, 0x8000000000000);
    }
    let low = wide_mul_small(a, ml);
    let high = wide_shift(&wide_mul_small(a, mh));
    let n = if low.len() < high.len() {
        high.len()
    } else {
        low.len()
    };
    let lp = wide_pad(&low, n);
    let hp = wide_pad(&high, n);
    let r = wide_add(&lp, &hp);
    proof {
        assert(wide_value(a@) * ml + 0x8000000000000 * (wide_value(a@) * mh) == wide_value(a@)
            * m) by (nonlinear_arith)
            requires
                m == 0x8000000000000 * mh + ml,
        ;
    }
    r
}

/// Whether `a <= b` as numbers: scan from the most significant limb.
pub fn wide_le(a: &Vec<u64>, b: &Vec<u64>) -> (r: bool)
    requires
        limbs_ok(a@),
        limbs_ok(b@),
    ensures
        r == (wide_value(a@) <= wide_value(b@)),
{
    let n = if a.len() < b.len() {
        b.len()
    } else {
        a.len()
    };
    let ap = wide_pad(a, n);
    let bp = wide_pad(b, n);
    let mut j: usize = n;
    proof {
        assert(ap@.skip(n as int) =~= Seq::<u64>::empty());
        assert(bp@.skip(n as int) =~= Seq::<u64>::empty());
    }
    loop
        invariant
            j <= n,
            n == ap@.len(),
            n == bp@.len(),
            limbs_ok(ap@),
            limbs_ok(bp@),
            wide_value(ap@) == wide_value(a@),
            wide_value(bp@) == wide_value(b@),
            ap@.skip(j as int) == bp@.skip(j as int),
        ensures
            wide_value(a@) <= wide_value(b@),
        decreases j,
    {
        if j == 0 {
            proof {
                assert(ap@.skip(0) =~= ap@);
                assert(bp@.skip(0) =~= bp@);
            }
            break;
        }
        let t = j - 1;
        if ap[t] != bp[t] {
            proof {
                lemma_value_split(ap@, t as int);
                lemma_value_split(bp@, t as int);
                assert(ap@.skip(t as int).drop_first() =~= ap@.skip(j as int));
                assert(bp@.skip(t as int).drop_first() =~= bp@.skip(j as int));
                lemma_value_bound(ap@.take(t as int));
                lemma_value_bound(bp@.take(t as int));
                let tail: int = wide_value(ap@.skip(j as int));
                assert(wide_value(ap@.skip(t as int)) == ap@[t as int] + 0x8000000000000 * tail);
                assert(wide_value(bp@.skip(t as int)) == bp@[t as int] + 0x8000000000000 * tail);
                if ap@[t as int] < bp@[t as int] {
                    assert(wide_value(ap@) < wide_value(bp@)) by (nonlinear_arith)
                        requires
                            wide_value(ap@) == wide_value(ap@.take(t as int)) + limb_weight(
                                t as nat,
                            ) * (ap@[t as int] + 0x8000000000000 * tail),
                            wide_value(bp@) == wide_value(bp@.take(t as int)) + limb_weight(
                                t as nat,
                            ) * (bp@[t as int] + 0x8000000000000 * tail),
                            0 <= wide_value(ap@.take(t as int)) < limb_weight(t as nat),
                            0 <= wide_value(bp@.take(t as int)),
                            ap@[t as int] + 1 <= bp@[t as int],
                    ;
                } else {
                    assert(wide_value(bp@) < wide_value(ap@)) by (nonlinear_arith)
                        requires
                            wide_value(ap@) == wide_value(ap@.take(t as int)) + limb_weight(
                                t as nat,
                            ) * (ap@[t as int] + 0x8000000000000 * tail),
                            wide_value(bp@) == wide_value(bp@.take(t as int)) + limb_weight(
                                t as nat,
                            ) * (bp@[t as int] + 0x8000000000000 * tail),
                            0 <= wide_value(bp@.take(t as int)) < limb_weight(t as nat),
                            0 <= wide_value(ap@.take(t as int)),
                            bp@[t as int] + 1 <= ap@[t as int],
                    ;
                }
            }
            return ap[t] < bp[t];
        }
        proof {
            assert(ap@.skip(t as int) =~= seq![ap@[t as int]] + ap@.skip(j as int));
            assert(bp@.skip(t as int) =~= seq![bp@[t as int]] + bp@.skip(j as int));
            assert(ap@.skip(t as int) =~= bp@.skip(t as int));
        }
        j = t;
    }
    true
}

/// Raises a value below 2^102 to the fifth power.
pub fn wide_pow5(x: u128) -> (r: Vec<u64>)
    requires
        x < 0x40000000000000000000000000,
    ensures
        limbs_ok(r@),
        wide_value(r@) == crate::demosaic::pow5(x as int),
{
    let one = wide_from_small(1);
    let p1 = wide_mul(&one, x);
    let p2 = wide_mul(&p1, x);
    let p3 = wide_mul(&p2, x);
    let p4 = wide_mul(&p3, x);
    let p5 = wide_mul(&p4, x);
    proof {
        assert(wide_value(p5@) == crate::demosaic::pow5(x as int)) by (nonlinear_arith)
            requires
                wide_value(p5@) == ((((1 * x) * x) * x) * x) * x,
                crate::demosaic::pow5(x as int) == ((x * x) * (x * x)) * x,
        ;
    }
    p5
}

} // verus!
