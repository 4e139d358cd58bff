use vstd::arithmetic::div_mod::*;
use vstd::prelude::*;

verus! {

/// The torus modulus: a torus element is a 32-bit fixed-point fraction of 1.
pub const TORUS_MOD: u64 = 0x1_0000_0000;

/// `x` reduced onto the torus, as an integer in `[0, 2^32)`.
pub open spec fn tor(x: int) -> int {
    x % (TORUS_MOD as int)
}

pub proof fn lemma_tor_bound(x: int)
    ensures
        0 <= tor(x) < TORUS_MOD,
{
    lemma_mod_bound(x, TORUS_MOD as int);
}

pub proof fn lemma_tor_small(x: int)
    requires
        0 <= x < TORUS_MOD,
    ensures
        tor(x) == x,
{
    lemma_small_mod(x as nat, TORUS_MOD as nat);
}

pub proof fn lemma_tor_add(x: int, y: int)
    ensures
        tor(tor(x) + tor(y)) == tor(x + y),
        tor(x + tor(y)) == tor(x + y),
        tor(tor(x) + y) == tor(x + y),
{
    lemma_add_mod_noop(x, y, TORUS_MOD as int);
    lemma_add_mod_noop_right(x, y, TORUS_MOD as int);
    lemma_add_mod_noop_right(y, x, TORUS_MOD as int);
}

pub proof fn lemma_tor_sub(x: int, y: int)
    ensures
        tor(tor(x) - tor(y)) == tor(x - y),
        tor(x - tor(y)) == tor(x - y),
        tor(tor(x) - y) == tor(x - y),
{
    lemma_sub_mod_noop(x, y, TORUS_MOD as int);
    lemma_sub_mod_noop_right(x, y, TORUS_MOD as int);
    lemma_add_mod_noop_right(-y, x, TORUS_MOD as int);
    assert(tor(x) - y == -y + tor(x));
    assert(x - y == -y + x);
}

pub proof fn lemma_tor_mul(x: int, y: int)
    ensures
        tor(x * tor(y)) == tor(x * y),
        tor(tor(x) * y) == tor(x * y),
{
    lemma_mul_mod_noop_right(x, y, TORUS_MOD as int);
    lemma_mul_mod_noop_left(x, y, TORUS_MOD as int);
}

pub proof fn lemma_tor_multiple(q: int, x: int)
    ensures
        tor(TORUS_MOD * q + x) == tor(x),
{
    lemma_mod_multiples_vanish(q, x, TORUS_MOD as int);
}

/// A small signed integer reduced onto the torus.
pub fn int_to_fix(v: i64) -> (r: u32)
    ensures
        r as int == tor(v as int),
{
    if v >= 0 {
        proof {
            lemma_tor_bound(v as int);
        }
        ((v as u64) % TORUS_MOD) as u32
    } else {
        let p: u64 = ((-(v as i128)) as u128 % (TORUS_MOD as u128)) as u64;
        proof {
            let q = (-v) / (TORUS_MOD as int);
            lemma_fundamental_div_mod(-v, TORUS_MOD as int);
            lemma_tor_bound(-v);
            assert(v + TORUS_MOD * (q + 1) == TORUS_MOD - p) by (nonlinear_arith)
                requires
                    -v == TORUS_MOD * q + p,
            ;
            lemma_tor_multiple(q + 1, v as int);
            lemma_tor_bound(TORUS_MOD - p);
        }
        ((TORUS_MOD - p) % TORUS_MOD) as u32
    }
}

/// An element of the torus R/Z, held as a 32-bit fixed-point fraction:
/// `fix` stands for `fix / 2^32`. Equality and order compare `fix`.
#[derive(Debug, Clone, Copy, PartialEq, Eq, Structural, PartialOrd, Ord)]
pub struct Torus01 {
    pub fix: u32,
}

impl Torus01 {
    /// Wraps a raw fixed-point value.
    pub fn new_with_fix(fix: u32) -> (r: Torus01)
        ensures
            r.fix == fix,
    {
        Torus01 { fix }
    }

    /// Sum modulo 1.
    pub fn add(self, rhs: Torus01) -> (r: Torus01)
        ensures
            r.fix == tor(self.fix + rhs.fix),
    {
        proof {
            lemma_tor_bound(self.fix + rhs.fix);
        }
        Torus01 { fix: ((self.fix as u64 + rhs.fix as u64) % TORUS_MOD) as u32 }
    }

    /// Difference modulo 1.
    pub fn sub(self, rhs: Torus01) -> (r: Torus01)
        ensures
            r.fix == tor(self.fix - rhs.fix),
    {
        proof {
            lemma_tor_multiple(1, self.fix - rhs.fix);
            lemma_tor_bound(self.fix - rhs.fix);
        }
        Torus01 { fix: ((self.fix as u64 + (TORUS_MOD - rhs.fix as u64)) % TORUS_MOD) as u32 }
    }

    /// Additive inverse modulo 1; zero stays zero.
    pub fn neg(self) -> (r: Torus01)
        ensures
            r.fix == tor(-self.fix),
    {
        proof {
            lemma_tor_multiple(1, -self.fix);
            lemma_tor_bound(-self.fix);
        }
        Torus01 { fix: ((TORUS_MOD - self.fix as u64) % TORUS_MOD) as u32 }
    }

    /// Product with a signed integer, modulo 1.
    pub fn mul(self, rhs: i64) -> (r: Torus01)
        ensures
            r.fix == tor(self.fix * rhs),
    {
        let m = int_to_fix(rhs);
        proof {
            lemma_tor_mul(self.fix as int, rhs as int);
            lemma_tor_bound(self.fix * m);
            assert(self.fix * m <= 0xffff_ffffu64 * 0xffff_ffffu64) by (nonlinear_arith)
                requires
                    self.fix <= 0xffff_ffffu64,
                    m <= 0xffff_ffffu64,
            ;
        }
        Torus01 { fix: ((self.fix as u64 * m as u64) % TORUS_MOD) as u32 }
    }

    pub fn add_assign(&mut self, rhs: Torus01)
        ensures
            final(self).fix == tor(old(self).fix + rhs.fix),
    {
        *self = self.add(rhs);
    }

    pub fn sub_assign(&mut self, rhs: Torus01)
        ensures
            final(self).fix == tor(old(self).fix - rhs.fix),
    {
        *self = self.sub(rhs);
    }
}

/// Inner product of torus elements with signed integers, before reduction.
pub open spec fn dot(a: Seq<Torus01>, s: Seq<i64>) -> int
    decreases a.len(),
{
    if a.len() == 0 {
        0
    } else {
        dot(a.drop_last(), s.drop_last()) + a.last().fix * s.last()
    }
}

/// Coefficient `i` of the integer polynomial `b`, zero past its end.
pub open spec fn coef_at(b: Seq<i64>, i: int) -> int {
    if 0 <= i < b.len() {
        b[i] as int
    } else {
        0
    }
}

/// Term `t` of coefficient `k` of the negacyclic product of `a` and `b`
/// (length `a.len()`): `X^N = -1`, so a term whose degree reaches `N`
/// folds back with its sign flipped.
pub open spec fn nc_term(a: Seq<Torus01>, b: Seq<i64>, k: int, t: int) -> int {
    if t <= k {
        a[t].fix * coef_at(b, k - t)
    } else {
        -(a[t].fix * coef_at(b, k - t + a.len()))
    }
}

/// The first `i` terms of coefficient `k` of the negacyclic product.
pub open spec fn nc_sum(a: Seq<Torus01>, b: Seq<i64>, k: int, i: int) -> int
    decreases i,
{
    if i <= 0 {
        0
    } else {
        nc_sum(a, b, k, i - 1) + nc_term(a, b, k, i - 1)
    }
}

/// Coefficient `k` of `a * b` in `T[X] / (X^N + 1)`, on the torus.
pub open spec fn nc_coef(a: Seq<Torus01>, b: Seq<i64>, k: int) -> int {
    tor(nc_sum(a, b, k, a.len() as int))
}

/// A vector of torus elements.
#[derive(Debug, Clone)]
pub struct Torus01Vec {
    pub coef: Vec<Torus01>,
}

impl Torus01Vec {
    pub fn new_with_fix(coef: Vec<u32>) -> (r: Torus01Vec)
        ensures
            r.coef@.len() == coef@.len(),
            forall|i: int| 0 <= i < coef@.len() ==> r.coef@[i].fix == coef@[i],
    {
        let mut out: Vec<Torus01> = Vec::new();
        let mut i: usize = 0;
        while i < coef.len()
            invariant
                i <= coef@.len(),
                out@.len() == i,
                forall|j: int| 0 <= j < i ==> out@[j].fix == coef@[j],
            decreases coef@.len() - i,
        {
            out.push(Torus01::new_with_fix(coef[i]));
            i += 1;
        }
        Torus01Vec { coef: out }
    }

    pub fn new_with_torus(coef: Vec<Torus01>) -> (r: Torus01Vec)
        ensures
            r.coef@ == coef@,
    {
        Torus01Vec { coef }
    }

    /// Component-wise sum.
    pub fn add_assign(&mut self, rhs: &Torus01Vec)
        requires
            old(self).coef@.len() == rhs.coef@.len(),
        ensures
            final(self).coef@.len() == old(self).coef@.len(),
            forall|i: int|
                0 <= i < rhs.coef@.len() ==> final(self).coef@[i].fix == tor(
                    old(self).coef@[i].fix + rhs.coef@[i].fix,
                ),
    {
        let mut i: usize = 0;
        while i < self.coef.len()
            invariant
                self.coef@.len() == old(self).coef@.len() == rhs.coef@.len(),
                i <= self.coef@.len(),
                forall|j: int|
                    0 <= j < i ==> self.coef@[j].fix == tor(old(self).coef@[j].fix + rhs.coef@[j].fix),
                forall|j: int| i <= j < self.coef@.len() ==> self.coef@[j] == old(self).coef@[j],
            decreases self.coef@.len() - i,
        {
            let v = self.coef[i].add(rhs.coef[i]);
            self.coef.set(i, v);
            i += 1;
        }
    }

    /// Component-wise difference.
    pub fn sub_assign(&mut self, rhs: &Torus01Vec)
        requires
            old(self).coef@.len() == rhs.coef@.len(),
        ensures
            final(self).coef@.len() == old(self).coef@.len(),
            forall|i: int|
                0 <= i < rhs.coef@.len() ==> final(self).coef@[i].fix == tor(
                    old(self).coef@[i].fix - rhs.coef@[i].fix,
                ),
    {
        let mut i: usize = 0;
        while i < self.coef.len()
            invariant
                self.coef@.len() == old(self).coef@.len() == rhs.coef@.len(),
                i <= self.coef@.len(),
                forall|j: int|
                    0 <= j < i ==> self.coef@[j].fix == tor(old(self).coef@[j].fix - rhs.coef@[j].fix),
                forall|j: int| i <= j < self.coef@.len() ==> self.coef@[j] == old(self).coef@[j],
            decreases self.coef@.len() - i,
        {
            let v = self.coef[i].sub(rhs.coef[i]);
            self.coef.set(i, v);
            i += 1;
        }
    }

    /// Component-wise negation.
    pub fn neg(&self) -> (r: Torus01Vec)
        ensures
            r.coef@.len() == self.coef@.len(),
            forall|i: int| 0 <= i < self.coef@.len() ==> r.coef@[i].fix == tor(-self.coef@[i].fix),
    {
        let mut out: Vec<Torus01> = Vec::new();
        let mut i: usize = 0;
        while i < self.coef.len()
            invariant
                i <= self.coef@.len(),
                out@.len() == i,
                forall|j: int| 0 <= j < i ==> out@[j].fix == tor(-self.coef@[j].fix),
            decreases self.coef@.len() - i,
        {
            out.push(self.coef[i].neg());
            i += 1;
        }
        Torus01Vec { coef: out }
    }

    /// Product of every component with the integer `k`.
    pub fn scale(&self, k: i64) -> (r: Torus01Vec)
        ensures
            r.coef@.len() == self.coef@.len(),
            forall|i: int| 0 <= i < self.coef@.len() ==> r.coef@[i].fix == tor(self.coef@[i].fix * k),
    {
        let mut out: Vec<Torus01> = Vec::new();
        let mut i: usize = 0;
        while i < self.coef.len()
            invariant
                i <= self.coef@.len(),
                out@.len() == i,
                forall|j: int| 0 <= j < i ==> out@[j].fix == tor(self.coef@[j].fix * k),
            decreases self.coef@.len() - i,
        {
            out.push(self.coef[i].mul(k));
            i += 1;
        }
        Torus01Vec { coef: out }
    }

    /// Inner product with a vector of signed integers (a secret key).
    pub fn dot(&self, s: &Vec<i64>) -> (r: Torus01)
        requires
            self.coef@.len() == s@.len(),
        ensures
            r.fix == tor(dot(self.coef@, s@)),
    {
        let mut acc = Torus01::new_with_fix(0);
        let mut i: usize = 0;
        proof {
            lemma_tor_small(0);
            assert(self.coef@.subrange(0, 0).len() == 0);
        }
        while i < self.coef.len()
            invariant
                self.coef@.len() == s@.len(),
                i <= self.coef@.len(),
                acc.fix == tor(dot(self.coef@.subrange(0, i as int), s@.subrange(0, i as int))),
            decreases self.coef@.len() - i,
        {
            let term = self.coef[i].mul(s[i]);
            proof {
                let a1 = self.coef@.subrange(0, i + 1);
                let s1 = s@.subrange(0, i + 1);
                assert(a1.drop_last() =~= self.coef@.subrange(0, i as int));
                assert(s1.drop_last() =~= s@.subrange(0, i as int));
                lemma_tor_add(
                    dot(self.coef@.subrange(0, i as int), s@.subrange(0, i as int)),
                    self.coef@[i as int].fix * s@[i as int],
                );
            }
            acc = acc.add(term);
            i += 1;
        }
        proof {
            assert(self.coef@.subrange(0, i as int) =~= self.coef@);
            assert(s@.subrange(0, i as int) =~= s@);
        }
        acc
    }
}

/// A polynomial of `T[X] / (X^N + 1)`, `N` its number of coefficients.
/// Two polynomials are equal when their coefficient sequences are.
#[derive(Debug, Clone)]
pub struct Torus01Poly {
    pub coef: Vec<Torus01>,
}

impl Torus01Poly {
    pub fn new_with_fix(coef: Vec<u32>) -> (r: Torus01Poly)
        ensures
            r.coef@.len() == coef@.len(),
            forall|i: int| 0 <= i < coef@.len() ==> r.coef@[i].fix == coef@[i],
    {
        let v = Torus01Vec::new_with_fix(coef);
        Torus01Poly { coef: v.coef }
    }

    pub fn new_with_torus(coef: Vec<Torus01>) -> (r: Torus01Poly)
        ensures
            r.coef@ == coef@,
    {
        Torus01Poly { coef }
    }

    /// Coefficient-wise sum.
    pub fn add(&self, rhs: &Torus01Poly) -> (r: Torus01Poly)
        requires
            self.coef@.len() == rhs.coef@.len(),
        ensures
            r.coef@.len() == self.coef@.len(),
            forall|i: int|
                0 <= i < self.coef@.len() ==> r.coef@[i].fix == tor(self.coef@[i].fix + rhs.coef@[i].fix),
    {
        let mut v = Torus01Vec { coef: self.coef.clone() };
        proof {
            assert(v.coef@ =~= self.coef@);
        }
        v.add_assign(&Torus01Vec { coef: rhs.coef.clone() });
        Torus01Poly { coef: v.coef }
    }

    /// Coefficient-wise difference.
    pub fn sub(&self, rhs: &Torus01Poly) -> (r: Torus01Poly)
        requires
            self.coef@.len() == rhs.coef@.len(),
        ensures
            r.coef@.len() == self.coef@.len(),
            forall|i: int|
                0 <= i < self.coef@.len() ==> r.coef@[i].fix == tor(self.coef@[i].fix - rhs.coef@[i].fix),
    {
        let mut v = Torus01Vec { coef: self.coef.clone() };
        v.sub_assign(&Torus01Vec { coef: rhs.coef.clone() });
        Torus01Poly { coef: v.coef }
    }

    /// Negacyclic product with an integer polynomial of the same length or
    /// of half of it (its upper coefficients zero), by direct convolution.
    pub fn mul(&self, rhs: &Vec<i64>) -> (r: Torus01Poly)
        requires
            self.coef@.len() == rhs@.len() || self.coef@.len() == 2 * rhs@.len(),
        ensures
            r.coef@.len() == self.coef@.len(),
            forall|k: int|
                0 <= k < self.coef@.len() ==> r.coef@[k].fix == nc_coef(self.coef@, rhs@, k),
    {
        let n = self.coef.len();
        let mut out: Vec<Torus01> = Vec::new();
        let mut k: usize = 0;
        while k < n
            invariant
                n == self.coef@.len(),
                n == rhs@.len() || n == 2 * rhs@.len(),
                k <= n,
                out@.len() == k,
                forall|j: int| 0 <= j < k ==> out@[j].fix == nc_coef(self.coef@, rhs@, j),
            decreases n - k,
        {
            let mut acc = Torus01::new_with_fix(0);
            let mut t: usize = 0;
            proof {
                lemma_tor_small(0);
            }
            while t < n
                invariant
                    n == self.coef@.len(),
                    n == rhs@.len() || n == 2 * rhs@.len(),
                    k < n,
                    t <= n,
                    acc.fix == tor(nc_sum(self.coef@, rhs@, k as int, t as int)),
                decreases n - t,
            {
                let x = self.coef[t];
                if t <= k && k - t >= rhs.len() {
                    proof {
                        lemma_tor_small(acc.fix as int);
                    }
                } else if t > k && n - (t - k) >= rhs.len() {
                    proof {
                        lemma_tor_small(acc.fix as int);
                    }
                } else if t <= k {
                    let p = x.mul(rhs[k - t]);
                    proof {
                        lemma_tor_add(
                            nc_sum(self.coef@, rhs@, k as int, t as int),
                            x.fix * rhs@[k - t],
                        );
                    }
                    acc = acc.add(p);
                } else {
                    let p = x.mul(rhs[n - (t - k)]);
                    proof {
                        assert(n - (t - k) == k - t + n);
                        lemma_tor_sub(
                            nc_sum(self.coef@, rhs@, k as int, t as int),
                            x.fix * rhs@[n - (t - k)],
                        );
                    }
                    acc = acc.sub(p);
                }
                t += 1;
            }
            out.push(acc);
            k += 1;
        }
        Torus01Poly { coef: out }
    }
}

impl PartialEq for Torus01Poly {
    fn eq(&self, other: &Torus01Poly) -> (r: bool)
        ensures
            r == (self.coef@ == other.coef@),
    {
        if self.coef.len() != other.coef.len() {
            return false;
        }
        let mut i: usize = 0;
        while i < self.coef.len()
            invariant
                self.coef@.len() == other.coef@.len(),
                i <= self.coef@.len(),
                forall|j: int| 0 <= j < i ==> self.coef@[j] == other.coef@[j],
            decreases self.coef@.len() - i,
        {
            if self.coef[i].fix != other.coef[i].fix {
                return false;
            }
            i += 1;
        }
        assert(self.coef@ =~= other.coef@);
        true
    }
}

impl vstd::std_specs::cmp::PartialEqSpecImpl for Torus01Poly {
    open spec fn obeys_eq_spec() -> bool {
        true
    }

    open spec fn eq_spec(&self, other: &Torus01Poly) -> bool {
        self.coef@ == other.coef@
    }
}

impl Eq for Torus01Poly {

}

} // verus!
