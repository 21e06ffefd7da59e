//! Fixed-width unsigned integers held as little-endian 64-bit limbs, with
//! saturating addition and decimal conversion.

use vstd::prelude::*;
use vstd::string::StringSliceAdditionalSpecFns;

verus! {

/// The radix of one limb.
pub open spec fn limb_base() -> nat {
    0x1_0000_0000_0000_0000nat
}

/// `limb_base()` raised to `n`.
pub open spec fn base_pow(n: nat) -> nat
    decreases n,
{
    if n == 0 {
        1
    } else {
        limb_base() * base_pow((n - 1) as nat)
    }
}

/// The number that little-endian limbs stand for.
pub open spec fn limbs_value(s: Seq<u64>) -> nat
    decreases s.len(),
{
    if s.len() == 0 {
        0
    } else {
        s[0] as nat + limb_base() * limbs_value(s.drop_first())
    }
}

pub proof fn lemma_base_pow_positive(n: nat)
    ensures
        base_pow(n) >= 1,
    decreases n,
{
    if n > 0 {
        lemma_base_pow_positive((n - 1) as nat);
        assert(limb_base() * base_pow((n - 1) as nat) >= 1) by (nonlinear_arith)
            requires
                base_pow((n - 1) as nat) >= 1,
                limb_base() >= 1,
        ;
    }
}

/// Appending a limb at the top adds it scaled by the base's power.
pub proof fn lemma_limbs_prefix(s: Seq<u64>, i: int)
    requires
        0 <= i < s.len(),
    ensures
        limbs_value(s.take(i + 1)) == limbs_value(s.take(i)) + s[i] as nat * base_pow(i as nat),
    decreases i,
{
    if i == 0 {
        assert(s.take(1).drop_first() =~= Seq::<u64>::empty());
        assert(s.take(0) =~= Seq::<u64>::empty());
        assert(limbs_value(Seq::<u64>::empty()) == 0);
        assert(limbs_value(s.take(1)) == s[0] as nat + limb_base() * limbs_value(
            s.take(1).drop_first(),
        ));
        assert(base_pow(0) == 1);
        assert(s[0] as nat * base_pow(0) == s[0] as nat) by (nonlinear_arith)
            requires
                base_pow(0) == 1,
        ;
        assert(limbs_value(s.take(1)) == limbs_value(s.take(0)) + s[0] as nat * base_pow(0));
    } else {
        let t = s.drop_first();
        lemma_limbs_prefix(t, i - 1);
        assert(s.take(i + 1).drop_first() =~= t.take(i));
        assert(s.take(i).drop_first() =~= t.take(i - 1));
        let a = limbs_value(t.take(i - 1));
        let p = base_pow((i - 1) as nat);
        let x = s[i] as nat;
        assert(t[i - 1] == s[i]);
        assert(limbs_value(s.take(i + 1)) == s[0] as nat + limb_base() * limbs_value(t.take(i)));
        assert(limbs_value(s.take(i)) == s[0] as nat + limb_base() * a);
        assert(base_pow(i as nat) == limb_base() * p);
        assert(limb_base() * (a + x * p) == limb_base() * a + x * (limb_base() * p))
            by (nonlinear_arith);
        assert(limbs_value(s.take(i + 1)) == limbs_value(s.take(i)) + x * base_pow(i as nat));
    }
}

/// Limbs of length `n` stand for a number below `base_pow(n)`.
pub proof fn lemma_limbs_bound(s: Seq<u64>)
    ensures
        limbs_value(s) < base_pow(s.len()),
    decreases s.len(),
{
    if s.len() > 0 {
        let t = s.drop_first();
        lemma_limbs_bound(t);
        let v = limbs_value(t);
        let p = base_pow(t.len());
        let x = s[0] as nat;
        assert(x + limb_base() * v < limb_base() * p) by (nonlinear_arith)
            requires
                v < p,
                x < limb_base(),
        ;
        assert(base_pow(s.len()) == limb_base() * p);
    }
}

/// Limbs that are all at their maximum stand for the largest number of that width.
pub proof fn lemma_limbs_all_max(s: Seq<u64>)
    requires
        forall|j: int| 0 <= j < s.len() ==> s[j] == u64::MAX,
    ensures
        limbs_value(s) + 1 == base_pow(s.len()),
    decreases s.len(),
{
    if s.len() > 0 {
        let t = s.drop_first();
        lemma_limbs_all_max(t);
        assert(base_pow(s.len()) == limb_base() * base_pow(t.len()));
        let v = limbs_value(t);
        assert(limb_base() * (v + 1) == limb_base() * v + limb_base()) by (nonlinear_arith);
    }
}

/// A number is zero exactly when all of its limbs are.
pub proof fn lemma_limbs_zero(s: Seq<u64>)
    ensures
        limbs_value(s) == 0 <==> forall|j: int| 0 <= j < s.len() ==> s[j] == 0,
    decreases s.len(),
{
    if s.len() > 0 {
        let t = s.drop_first();
        lemma_limbs_zero(t);
        let v = limbs_value(t);
        assert(limb_base() * v == 0 <==> v == 0) by (nonlinear_arith);
        if limbs_value(s) == 0 {
            assert forall|j: int| 0 <= j < s.len() implies s[j] == 0 by {
                if j > 0 {
                    assert(s[j] == t[j - 1]);
                }
            }
        }
        if forall|j: int| 0 <= j < s.len() ==> s[j] == 0 {
            assert forall|j: int| 0 <= j < t.len() implies t[j] == 0 by {
                assert(t[j] == s[j + 1]);
            }
        }
    }
}

/// Limbs of the largest number of width `n`.
pub fn limbs_max(n: usize) -> (r: Vec<u64>)
    ensures
        r@.len() == n,
        limbs_value(r@) + 1 == base_pow(n as nat),
{
    let mut r: Vec<u64> = Vec::new();
    let mut i: usize = 0;
    while i < n
        invariant
            i <= n,
            r@.len() == i,
            forall|j: int| 0 <= j < i ==> r@[j] == u64::MAX,
        decreases n - i,
    {
        r.push(u64::MAX);
        i += 1;
    }
    proof {
        lemma_limbs_all_max(r@);
    }
    r
}

/// Sum of two numbers of the same width, held at the width's maximum.
pub fn limbs_add_saturating(a: &Vec<u64>, b: &Vec<u64>) -> (r: Vec<u64>)
    requires
        a@.len() == b@.len(),
    ensures
        r@.len() == a@.len(),
        limbs_value(r@) == if limbs_value(a@) + limbs_value(b@) < base_pow(a@.len()) {
            limbs_value(a@) + limbs_value(b@)
        } else {
            (base_pow(a@.len()) - 1) as nat
        },
{
    let n = a.len();
    let mut r: Vec<u64> = Vec::new();
    let mut carry: u64 = 0;
    let mut i: usize = 0;
    assert(a@.take(0) =~= Seq::<u64>::empty());
    assert(b@.take(0) =~= Seq::<u64>::empty());
    assert(r@ =~= Seq::<u64>::empty());
    while i < n
        invariant
            i <= n,
            n == a@.len(),
            n == b@.len(),
            r@.len() == i,
            carry <= 1,
            limbs_value(r@) + carry as nat * base_pow(i as nat) == limbs_value(a@.take(i as int))
                + limbs_value(b@.take(i as int)),
        decreases n - i,
    {
        let s: u128 = a[i] as u128 + b[i] as u128 + carry as u128;
        let hi: u128 = s / 0x1_0000_0000_0000_0000u128;
        let lo: u128 = s % 0x1_0000_0000_0000_0000u128;
        proof {
            lemma_limbs_prefix(a@, i as int);
            lemma_limbs_prefix(b@, i as int);
            let rp = r@.push(lo as u64);
            lemma_limbs_prefix(rp, i as int);
            assert(rp.take(i as int + 1) =~= rp);
            assert(rp.take(i as int) =~= r@);
            let p = base_pow(i as nat);
            assert(base_pow(i as nat + 1) == limb_base() * p);
            assert(s == hi * limb_base() + lo);
            assert(lo * p + hi * (limb_base() * p) == s * p) by (nonlinear_arith)
                requires
                    s == hi * limb_base() + lo,
            ;
            assert(s * p == a@[i as int] as nat * p + b@[i as int] as nat * p + carry as nat * p)
                by (nonlinear_arith)
                requires
                    s == a@[i as int] as nat + b@[i as int] as nat + carry as nat,
            ;
        }
        r.push(lo as u64);
        carry = hi as u64;
        i += 1;
    }
    proof {
        assert(a@.take(n as int) =~= a@);
        assert(b@.take(n as int) =~= b@);
        lemma_limbs_bound(r@);
    }
    if carry == 0 {
        r
    } else {
        limbs_max(n)
    }
}

/// `a * m + d`, as limbs of `a`'s width and the part that overflows them.
pub fn limbs_mul_add_small(a: &Vec<u64>, m: u64, d: u64) -> (r: (Vec<u64>, u64))
    ensures
        r.0@.len() == a@.len(),
        limbs_value(r.0@) + r.1 as nat * base_pow(a@.len()) == limbs_value(a@) * m + d,
{
    let n = a.len();
    let mut r: Vec<u64> = Vec::new();
    let mut carry: u64 = d;
    let mut i: usize = 0;
    assert(a@.take(0) =~= Seq::<u64>::empty());
    assert(r@ =~= Seq::<u64>::empty());
    assert(base_pow(0) == 1);
    assert(limbs_value(Seq::<u64>::empty()) == 0);
    assert(0 * m == 0) by (nonlinear_arith);
    assert(carry as nat * base_pow(0) == d);
    while i < n
        invariant
            i <= n,
            n == a@.len(),
            r@.len() == i,
            limbs_value(r@) + carry as nat * base_pow(i as nat) == limbs_value(a@.take(i as int))
                * m + d,
        decreases n - i,
    {
        let x: u128 = a[i] as u128;
        assert(x * (m as u128) <= 0xffff_ffff_ffff_ffffu128 * 0xffff_ffff_ffff_ffffu128)
            by (nonlinear_arith)
            requires
                x <= 0xffff_ffff_ffff_ffffu128,
                m <= 0xffff_ffff_ffff_ffffu64,
        ;
        let s: u128 = x * (m as u128) + carry as u128;
        let hi: u128 = s / 0x1_0000_0000_0000_0000u128;
        let lo: u128 = s % 0x1_0000_0000_0000_0000u128;
        proof {
            lemma_limbs_prefix(a@, i as int);
            let rp = r@.push(lo as u64);
            lemma_limbs_prefix(rp, i as int);
            assert(rp.take(i as int + 1) =~= rp);
            assert(rp.take(i as int) =~= r@);
            let p = base_pow(i as nat);
            assert(base_pow(i as nat + 1) == limb_base() * p);
            assert(lo * p + hi * (limb_base() * p) == s * p) by (nonlinear_arith)
                requires
                    s == hi * limb_base() + lo,
            ;
            let va = limbs_value(a@.take(i as int));
            assert(s * p == x * m * p + carry as nat * p) by (nonlinear_arith)
                requires
                    s == x * m + carry,
            ;
            assert((va + x * p) * m == va * m + x * m * p) by (nonlinear_arith);
        }
        r.push(lo as u64);
        carry = hi as u64;
        i += 1;
    }
    proof {
        assert(a@.take(n as int) =~= a@);
    }
    (r, carry)
}

/// Quotient and remainder of a division by a single limb.
pub fn limbs_divmod_small(a: &Vec<u64>, dv: u64) -> (r: (Vec<u64>, u64))
    requires
        dv > 0,
    ensures
        r.0@.len() == a@.len(),
        limbs_value(a@) == limbs_value(r.0@) * dv + r.1,
        r.1 < dv,
{
    let n = a.len();
    let mut q: Vec<u64> = a.clone();
    let mut rem: u64 = 0;
    let mut i: usize = n;
    assert(a@.subrange(n as int, n as int) =~= Seq::<u64>::empty());
    assert(q@.subrange(n as int, n as int) =~= Seq::<u64>::empty());
    assert(limbs_value(Seq::<u64>::empty()) == 0);
    assert(0 * dv == 0) by (nonlinear_arith);
    while i > 0
        invariant
            i <= n,
            n == a@.len(),
            q@.len() == n,
            rem < dv,
            limbs_value(a@.subrange(i as int, n as int)) == limbs_value(
                q@.subrange(i as int, n as int),
            ) * dv + rem,
        decreases i,
    {
        let j: usize = i - 1;
        let x: u128 = a[j] as u128;
        assert((rem as u128) * 0x1_0000_0000_0000_0000u128 + x < (dv as u128)
            * 0x1_0000_0000_0000_0000u128) by (nonlinear_arith)
            requires
                rem < dv,
                x < 0x1_0000_0000_0000_0000u128,
                dv <= 0xffff_ffff_ffff_ffffu64,
        ;
        let t: u128 = (rem as u128) * 0x1_0000_0000_0000_0000u128 + x;
        let qd: u128 = t / (dv as u128);
        let rd: u128 = t % (dv as u128);
        assert(qd < 0x1_0000_0000_0000_0000u128) by (nonlinear_arith)
            requires
                t < (dv as u128) * 0x1_0000_0000_0000_0000u128,
                qd == t / (dv as u128),
                dv > 0,
        ;
        let ghost old_q = q@;
        q.set(j, qd as u64);
        proof {
            let sa = a@.subrange(j as int, n as int);
            let sq = q@.subrange(j as int, n as int);
            assert(sa.drop_first() =~= a@.subrange(i as int, n as int));
            assert(sq.drop_first() =~= old_q.subrange(i as int, n as int));
            assert(sq[0] == qd);
            assert(t == qd * dv + rd) by (nonlinear_arith)
                requires
                    qd == t / (dv as u128),
                    rd == t % (dv as u128),
                    dv > 0,
            ;
            let vq = limbs_value(old_q.subrange(i as int, n as int));
            let va = limbs_value(a@.subrange(i as int, n as int));
            assert(x + limb_base() * va == (qd + limb_base() * vq) * dv + rd) by (nonlinear_arith)
                requires
                    va == vq * dv + rem,
                    t == rem * limb_base() + x,
                    t == qd * dv + rd,
            ;
        }
        rem = rd as u64;
        i = j;
    }
    proof {
        assert(a@.subrange(0, n as int) =~= a@);
        assert(q@.subrange(0, n as int) =~= q@);
    }
    (q, rem)
}


/// Equal limb sequences of one width stand for equal numbers, and only they.
pub proof fn lemma_limbs_injective(s: Seq<u64>, t: Seq<u64>)
    requires
        s.len() == t.len(),
        limbs_value(s) == limbs_value(t),
    ensures
        s == t,
    decreases s.len(),
{
    if s.len() > 0 {
        let a = s[0] as nat;
        let b = t[0] as nat;
        let v = limbs_value(s.drop_first());
        let w = limbs_value(t.drop_first());
        assert(a == b && v == w) by (nonlinear_arith)
            requires
                a + limb_base() * v == b + limb_base() * w,
                a < limb_base(),
                b < limb_base(),
        ;
        lemma_limbs_injective(s.drop_first(), t.drop_first());
        assert(s =~= seq![s[0]] + s.drop_first());
        assert(t =~= seq![t[0]] + t.drop_first());
    } else {
        assert(s =~= t);
    }
}

/// Limbs of zero, `n` of them.
pub fn limbs_zero(n: usize) -> (r: Vec<u64>)
    ensures
        r@.len() == n,
        limbs_value(r@) == 0,
{
    let mut r: Vec<u64> = Vec::new();
    let mut i: usize = 0;
    while i < n
        invariant
            i <= n,
            r@.len() == i,
            forall|j: int| 0 <= j < i ==> r@[j] == 0,
        decreases n - i,
    {
        r.push(0);
        i += 1;
    }
    proof {
        lemma_limbs_zero(r@);
    }
    r
}

/// Whether the limbs stand for zero.
pub fn limbs_is_zero(a: &Vec<u64>) -> (r: bool)
    ensures
        r == (limbs_value(a@) == 0),
{
    let mut i: usize = 0;
    while i < a.len()
        invariant
            i <= a@.len(),
            forall|j: int| 0 <= j < i ==> a@[j] == 0,
        decreases a@.len() - i,
    {
        if a[i] != 0 {
            proof {
                lemma_limbs_zero(a@);
            }
            assert(a@[i as int] != 0);
            return false;
        }
        i += 1;
    }
    proof {
        lemma_limbs_zero(a@);
    }
    true
}

/// Whether two limb sequences are equal.
pub fn limbs_eq(a: &Vec<u64>, b: &Vec<u64>) -> (r: bool)
    ensures
        r == (a@ == b@),
{
    if a.len() != b.len() {
        return false;
    }
    let mut i: usize = 0;
    while i < a.len()
        invariant
            i <= a@.len(),
            a@.len() == b@.len(),
            forall|j: int| 0 <= j < i ==> a@[j] == b@[j],
        decreases a@.len() - i,
    {
        if a[i] != b[i] {
            return false;
        }
        i += 1;
    }
    assert(a@ =~= b@);
    true
}

/// Whether a byte is an ASCII decimal digit.
pub open spec fn is_dec_digit(c: u8) -> bool {
    48 <= c <= 57
}

pub open spec fn all_dec_digits(s: Seq<u8>) -> bool {
    forall|i: int| 0 <= i < s.len() ==> is_dec_digit(#[trigger] s[i])
}

/// The number that a string of decimal digits spells; the empty string spells zero.
pub open spec fn dec_value(s: Seq<u8>) -> nat
    decreases s.len(),
{
    if s.len() == 0 {
        0
    } else {
        dec_value(s.drop_last()) * 10 + (s.last() - 48) as nat
    }
}

/// The shortest decimal digits of a number.
pub open spec fn dec_digits(v: nat) -> Seq<u8>
    decreases v,
{
    if v < 10 {
        seq![(48 + v) as u8]
    } else {
        dec_digits(v / 10).push((48 + v % 10) as u8)
    }
}

/// What parsing decimal text into a number below `bound` gives: the number when
/// every byte is a digit and it fits, nothing otherwise.
pub open spec fn dec_parse(s: Seq<u8>, bound: nat) -> Option<nat> {
    if all_dec_digits(s) && dec_value(s) < bound {
        Some(dec_value(s))
    } else {
        None
    }
}

/// A prefix of digits never spells more than the whole.
pub proof fn lemma_dec_value_prefix(s: Seq<u8>, j: int)
    requires
        all_dec_digits(s),
        0 <= j <= s.len(),
    ensures
        dec_value(s.take(j)) <= dec_value(s),
    decreases s.len(),
{
    if j < s.len() {
        let t = s.drop_last();
        assert(s.take(j) =~= t.take(j));
        assert(all_dec_digits(t)) by {
            assert forall|i: int| 0 <= i < t.len() implies is_dec_digit(#[trigger] t[i]) by {
                assert(t[i] == s[i]);
            }
        }
        lemma_dec_value_prefix(t, j);
    } else {
        assert(s.take(j) =~= s);
    }
}

/// Printed digits are digits, and read back as the number printed.
pub proof fn lemma_dec_digits_value(v: nat)
    ensures
        all_dec_digits(dec_digits(v)),
        dec_value(dec_digits(v)) == v,
        dec_digits(v).len() >= 1,
    decreases v,
{
    if v < 10 {
        let d = dec_digits(v);
        assert(d.drop_last() =~= Seq::<u8>::empty());
        assert(dec_value(Seq::<u8>::empty()) == 0);
    } else {
        lemma_dec_digits_value(v / 10);
        let d = dec_digits(v);
        let p = dec_digits(v / 10);
        assert(d.drop_last() =~= p);
        assert forall|i: int| 0 <= i < d.len() implies is_dec_digit(#[trigger] d[i]) by {
            if i < p.len() {
                assert(d[i] == p[i]);
            }
        }
        assert(v == (v / 10) * 10 + v % 10);
    }
}

/// Decimal digits of the number that the limbs stand for.
pub fn limbs_to_dec(a: &Vec<u64>) -> (r: Vec<u8>)
    ensures
        r@ == dec_digits(limbs_value(a@)),
    decreases limbs_value(a@),
{
    let (q, d) = limbs_divmod_small(a, 10);
    let digit: u8 = (48 + d) as u8;
    if limbs_is_zero(&q) {
        assert(limbs_value(a@) < 10);
        let r: Vec<u8> = vec![digit];
        assert(r@ =~= dec_digits(limbs_value(a@)));
        r
    } else {
        let ghost v = limbs_value(a@);
        assert(v / 10 == limbs_value(q@) && v % 10 == d) by (nonlinear_arith)
            requires
                v == limbs_value(q@) * 10 + d,
                d < 10,
        ;
        let mut r = limbs_to_dec(&q);
        r.push(digit);
        r
    }
}

/// Reads decimal digits into `n` limbs; `None` where a byte is not a digit or
/// the number does not fit.
pub fn limbs_from_dec(s: &[u8], n: usize) -> (r: Option<Vec<u64>>)
    ensures
        match r {
            Some(v) => dec_parse(s@, base_pow(n as nat)) == Some(limbs_value(v@)) && v@.len() == n,
            None => dec_parse(s@, base_pow(n as nat)) is None,
        },
{
    let mut x = limbs_zero(n);
    let mut i: usize = 0;
    assert(s@.take(0) =~= Seq::<u8>::empty());
    while i < s.len()
        invariant
            i <= s@.len(),
            x@.len() == n,
            all_dec_digits(s@.take(i as int)),
            limbs_value(x@) == dec_value(s@.take(i as int)),
        decreases s@.len() - i,
    {
        let c = s[i];
        if c < 48 || c > 57 {
            assert(!is_dec_digit(s@[i as int]));
            return None;
        }
        let (y, over) = limbs_mul_add_small(&x, 10, (c - 48) as u64);
        let ghost t = s@.take(i as int + 1);
        proof {
            assert(t.drop_last() =~= s@.take(i as int));
            assert(dec_value(t) == limbs_value(x@) * 10 + (c - 48) as nat);
            assert forall|j: int| 0 <= j < t.len() implies is_dec_digit(#[trigger] t[j]) by {
                if j < i {
                    assert(t[j] == s@.take(i as int)[j]);
                }
            }
        }
        if over != 0 {
            proof {
                lemma_limbs_bound(y@);
                let p = base_pow(n as nat);
                assert(over as nat * p >= p) by (nonlinear_arith)
                    requires
                        over >= 1,
                ;
                if all_dec_digits(s@) {
                    lemma_dec_value_prefix(s@, i as int + 1);
                }
            }
            return None;
        }
        assert(over as nat * base_pow(n as nat) == 0) by (nonlinear_arith)
            requires
                over == 0,
        ;
        x = y;
        i += 1;
    }
    proof {
        assert(s@.take(s@.len() as int) =~= s@);
        lemma_limbs_bound(x@);
    }
    Some(x)
}

} // verus!

verus! {

/// One more than the largest `U512`.
pub open spec fn u512_bound() -> nat {
    base_pow(8)
}

/// One more than the largest `U256`.
pub open spec fn u256_bound() -> nat {
    base_pow(4)
}

/// What a saturating sum below `bound` is.
pub open spec fn saturating_sum(a: nat, b: nat, bound: nat) -> nat {
    if a + b < bound {
        a + b
    } else {
        (bound - 1) as nat
    }
}

proof fn lemma_digit_limbs_value(s: Seq<u64>)
    requires
        s.len() >= 1,
        forall|j: int| 1 <= j < s.len() ==> s[j] == 0,
    ensures
        limbs_value(s) == s[0] as nat,
{
    let t = s.drop_first();
    assert forall|j: int| 0 <= j < t.len() implies t[j] == 0 by {
        assert(t[j] == s[j + 1]);
    }
    lemma_limbs_zero(t);
    assert(limb_base() * 0 == 0);
}

/// Limbs of `n >= 1` limbs standing for `v`.
fn limbs_from_u64(v: u64, n: usize) -> (r: Vec<u64>)
    requires
        n >= 1,
    ensures
        r@.len() == n,
        limbs_value(r@) == v,
{
    let mut r = limbs_zero(n);
    proof {
        lemma_limbs_zero(r@);
    }
    r.set(0, v);
    proof {
        lemma_digit_limbs_value(r@);
    }
    r
}

/// An unsigned integer of 512 bits.
#[derive(Debug)]
pub struct U512 {
    limbs: Vec<u64>,
}

impl View for U512 {
    type V = nat;

    closed spec fn view(&self) -> nat {
        if self.limbs@.len() == 8 {
            limbs_value(self.limbs@)
        } else {
            0
        }
    }
}

impl U512 {
    #[verifier::type_invariant]
    closed spec fn inv(&self) -> bool {
        self.limbs@.len() == 8
    }

    /// Every value is below the type's bound.
    pub proof fn lemma_bound(&self)
        ensures
            self@ < u512_bound(),
    {
        if self.limbs@.len() == 8 {
            lemma_limbs_bound(self.limbs@);
        } else {
            lemma_base_pow_positive(8);
        }
    }

    pub fn zero() -> (r: U512)
        ensures
            r@ == 0,
    {
        U512 { limbs: limbs_zero(8) }
    }

    pub fn from_u64(v: u64) -> (r: U512)
        ensures
            r@ == v,
    {
        U512 { limbs: limbs_from_u64(v, 8) }
    }

    pub fn max_value() -> (r: U512)
        ensures
            r@ == u512_bound() - 1,
    {
        U512 { limbs: limbs_max(8) }
    }

    /// The sum, held at the largest value where it would not fit.
    pub fn saturating_add(&self, other: &U512) -> (r: U512)
        ensures
            r@ == saturating_sum(self@, other@, u512_bound()),
    {
        proof {
            use_type_invariant(self);
            use_type_invariant(other);
        }
        U512 { limbs: limbs_add_saturating(&self.limbs, &other.limbs) }
    }

    pub fn copied(&self) -> (r: U512)
        ensures
            r@ == self@,
    {
        proof {
            use_type_invariant(self);
        }
        U512 { limbs: self.limbs.clone() }
    }

    pub fn is_zero(&self) -> (r: bool)
        ensures
            r == (self@ == 0),
    {
        proof {
            use_type_invariant(self);
        }
        limbs_is_zero(&self.limbs)
    }

    /// The shortest decimal digits, as ASCII bytes.
    pub fn to_dec_bytes(&self) -> (r: Vec<u8>)
        ensures
            r@ == dec_digits(self@),
    {
        proof {
            use_type_invariant(self);
        }
        limbs_to_dec(&self.limbs)
    }

    /// The number in decimal.
    pub fn to_dec_string(&self) -> (r: String)
        ensures
            r@ == crate::text::ascii_text(dec_digits(self@)),
    {
        let b = self.to_dec_bytes();
        proof {
            lemma_dec_digits_value(self@);
        }
        crate::text::string_from_ascii(b)
    }

    /// Reads decimal digits; `None` where a byte is not a digit or the number
    /// does not fit in 512 bits. No digits at all read as zero.
    pub fn from_dec_bytes(s: &[u8]) -> (r: Option<U512>)
        ensures
            match r {
                Some(v) => dec_parse(s@, u512_bound()) == Some(v@),
                None => dec_parse(s@, u512_bound()) is None,
            },
    {
        match limbs_from_dec(s, 8) {
            Some(v) => Some(U512 { limbs: v }),
            None => None,
        }
    }

    /// `from_dec_bytes` on the text's bytes.
    pub fn from_dec_str(s: &str) -> (r: Option<U512>)
        ensures
            match r {
                Some(v) => dec_parse(s.spec_bytes(), u512_bound()) == Some(v@),
                None => dec_parse(s.spec_bytes(), u512_bound()) is None,
            },
    {
        U512::from_dec_bytes(s.as_bytes())
    }
}

impl PartialEq for U512 {
    fn eq(&self, other: &U512) -> (r: bool) {
        proof {
            use_type_invariant(self);
            use_type_invariant(other);
            if self@ == other@ {
                lemma_limbs_injective(self.limbs@, other.limbs@);
            }
        }
        limbs_eq(&self.limbs, &other.limbs)
    }
}

impl vstd::std_specs::cmp::PartialEqSpecImpl for U512 {
    open spec fn obeys_eq_spec() -> bool {
        true
    }

    open spec fn eq_spec(&self, other: &U512) -> bool {
        self@ == other@
    }
}

/// An unsigned integer of 256 bits.
#[derive(Debug)]
pub struct U256 {
    limbs: Vec<u64>,
}

impl View for U256 {
    type V = nat;

    closed spec fn view(&self) -> nat {
        if self.limbs@.len() == 4 {
            limbs_value(self.limbs@)
        } else {
            0
        }
    }
}

impl U256 {
    #[verifier::type_invariant]
    closed spec fn inv(&self) -> bool {
        self.limbs@.len() == 4
    }

    /// Every value is below the type's bound.
    pub proof fn lemma_bound(&self)
        ensures
            self@ < u256_bound(),
    {
        if self.limbs@.len() == 4 {
            lemma_limbs_bound(self.limbs@);
        } else {
            lemma_base_pow_positive(4);
        }
    }

    pub fn from_u64(v: u64) -> (r: U256)
        ensures
            r@ == v,
    {
        U256 { limbs: limbs_from_u64(v, 4) }
    }

    pub fn max_value() -> (r: U256)
        ensures
            r@ == u256_bound() - 1,
    {
        U256 { limbs: limbs_max(4) }
    }

    /// The sum, held at the largest value where it would not fit.
    pub fn saturating_add(&self, other: &U256) -> (r: U256)
        ensures
            r@ == saturating_sum(self@, other@, u256_bound()),
    {
        proof {
            use_type_invariant(self);
            use_type_invariant(other);
        }
        U256 { limbs: limbs_add_saturating(&self.limbs, &other.limbs) }
    }

    /// The shortest decimal digits, as ASCII bytes.
    pub fn to_dec_bytes(&self) -> (r: Vec<u8>)
        ensures
            r@ == dec_digits(self@),
    {
        proof {
            use_type_invariant(self);
        }
        limbs_to_dec(&self.limbs)
    }

    pub fn copied(&self) -> (r: U256)
        ensures
            r@ == self@,
    {
        proof {
            use_type_invariant(self);
        }
        U256 { limbs: self.limbs.clone() }
    }
}

impl PartialEq for U256 {
    fn eq(&self, other: &U256) -> (r: bool) {
        proof {
            use_type_invariant(self);
            use_type_invariant(other);
            if self@ == other@ {
                lemma_limbs_injective(self.limbs@, other.limbs@);
            }
        }
        limbs_eq(&self.limbs, &other.limbs)
    }
}

impl vstd::std_specs::cmp::PartialEqSpecImpl for U256 {
    open spec fn obeys_eq_spec() -> bool {
        true
    }

    open spec fn eq_spec(&self, other: &U256) -> bool {
        self@ == other@
    }
}

} // verus!
