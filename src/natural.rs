use vstd::prelude::*;

verus! {

/// The base of a limb.
pub open spec fn limb_base() -> nat {
    0x1_0000_0000
}

/// The natural number that the limbs from `i` on hold, least significant first.
pub open spec fn limbs_value(s: Seq<u32>, i: nat) -> nat
    decreases s.len() - i,
{
    if i >= s.len() {
        0
    } else {
        s[i as int] as nat + limb_base() * limbs_value(s, i + 1)
    }
}

/// The natural number that `s` holds.
pub open spec fn value(s: Seq<u32>) -> nat {
    limbs_value(s, 0)
}

proof fn lemma_value_shift(d: u32, rest: Seq<u32>, k: nat)
    ensures
        limbs_value(seq![d] + rest, k + 1) == limbs_value(rest, k),
    decreases rest.len() - k,
{
    let x = seq![d] + rest;
    if k < rest.len() {
        lemma_value_shift(d, rest, k + 1);
        assert(x[k + 1 as int] == rest[k as int]);
    }
}

proof fn lemma_value_step(s: Seq<u32>, i: nat)
    ensures
        limbs_value(s, i) == (if i < s.len() {
            s[i as int] as nat
        } else {
            0
        }) + limb_base() * limbs_value(s, i + 1),
{
}

/// A natural number of limbs.
pub fn from_u64(x: u64) -> (r: Vec<u32>)
    ensures
        value(r@) == x,
{
    let mut r: Vec<u32> = Vec::new();
    r.push((x % 0x1_0000_0000) as u32);
    r.push((x / 0x1_0000_0000) as u32);
    proof {
        assert(limbs_value(r@, 2) == 0);
        assert(limbs_value(r@, 1) == r@[1] as nat);
    }
    r
}

fn mul_from(a: &Vec<u32>, i: usize, m: u32, carry: u64) -> (r: Vec<u32>)
    requires
        i <= a@.len(),
        carry < limb_base(),
    ensures
        value(r@) == limbs_value(a@, i as nat) * m + carry,
    decreases a@.len() - i,
{
    if i == a.len() {
        let mut r: Vec<u32> = Vec::new();
        if carry > 0 {
            r.push(carry as u32);
            assert(limbs_value(r@, 1) == 0);
        }
        return r;
    }
    let x = a[i] as u64;
    proof {
        assert(x * m <= 0xffff_ffff * 0xffff_ffff) by (nonlinear_arith)
            requires
                x <= 0xffff_ffff,
                m <= 0xffff_ffff,
        ;
    }
    let t: u64 = x * (m as u64) + carry;
    let d = (t % 0x1_0000_0000) as u32;
    let rest = mul_from(a, i + 1, m, t / 0x1_0000_0000);
    let mut r: Vec<u32> = Vec::new();
    r.push(d);
    let mut k: usize = 0;
    while k < rest.len()
        invariant
            k <= rest@.len(),
            r@ == seq![d] + rest@.take(k as int),
        decreases rest@.len() - k,
    {
        r.push(rest[k]);
        assert(r@ =~= seq![d] + rest@.take(k + 1));
        k = k + 1;
    }
    proof {
        assert(rest@.take(rest@.len() as int) =~= rest@);
        lemma_value_shift(d, rest@, 0);
        let ra = limbs_value(a@, i as nat + 1);
        assert(limbs_value(a@, i as nat) == x + limb_base() * ra);
        assert(value(r@) == d + limb_base() * value(rest@));
        assert(value(rest@) == ra * m + t / 0x1_0000_0000);
        assert(t == d + 0x1_0000_0000 * (t / 0x1_0000_0000));
        assert(d + limb_base() * (ra * m + t / 0x1_0000_0000) == (x + limb_base() * ra) * m + carry)
            by (nonlinear_arith)
            requires
                t == x * m + carry,
                t == d + 0x1_0000_0000 * (t / 0x1_0000_0000),
                limb_base() == 0x1_0000_0000,
        ;
    }
    r
}

/// `a` times a small number.
pub fn mul_small(a: &Vec<u32>, m: u32) -> (r: Vec<u32>)
    ensures
        value(r@) == value(a@) * m,
{
    mul_from(a, 0, m, 0)
}

fn limb_at(a: &Vec<u32>, i: usize) -> (r: u32)
    ensures
        r as nat == if i < a@.len() {
            a@[i as int] as nat
        } else {
            0
        },
{
    if i < a.len() {
        a[i]
    } else {
        0
    }
}

/// -1, 0 or 1 as the limbs of `a` from `i` on hold less than, as much as or more than those
/// of `b`.
fn cmp_from(a: &Vec<u32>, b: &Vec<u32>, i: usize) -> (r: i8)
    ensures
        r == -1 ==> limbs_value(a@, i as nat) < limbs_value(b@, i as nat),
        r == 0 ==> limbs_value(a@, i as nat) == limbs_value(b@, i as nat),
        r == 1 ==> limbs_value(a@, i as nat) > limbs_value(b@, i as nat),
        r == -1 || r == 0 || r == 1,
    decreases (if a@.len() > b@.len() {
        a@.len()
    } else {
        b@.len()
    }) - i,
{
    if i >= a.len() && i >= b.len() {
        return 0;
    }
    let c = cmp_from(a, b, i + 1);
    let x = limb_at(a, i);
    let y = limb_at(b, i);
    proof {
        lemma_value_step(a@, i as nat);
        lemma_value_step(b@, i as nat);
        let ua = limbs_value(a@, i as nat + 1);
        let ub = limbs_value(b@, i as nat + 1);
        if c == -1 {
            assert(x + limb_base() * ua < y + limb_base() * ub) by (nonlinear_arith)
                requires
                    ua < ub,
                    x < limb_base(),
                    limb_base() > 0,
            ;
        } else if c == 1 {
            assert(x + limb_base() * ua > y + limb_base() * ub) by (nonlinear_arith)
                requires
                    ua > ub,
                    y < limb_base(),
                    limb_base() > 0,
            ;
        }
    }
    if c != 0 {
        c
    } else if x < y {
        -1
    } else if x > y {
        1
    } else {
        0
    }
}

/// `a` holds no more than `b`.
pub fn le(a: &Vec<u32>, b: &Vec<u32>) -> (r: bool)
    ensures
        r == (value(a@) <= value(b@)),
{
    cmp_from(a, b, 0) != 1
}

} // verus!
