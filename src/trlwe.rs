use crate::tlwe::{decode, encode, encode_fix, round_phase, valid_mu_bit, TLWE};
use crate::torus::{
    lemma_tor_add, lemma_tor_bound, lemma_tor_small, lemma_tor_sub, nc_coef, tor, Torus01,
    Torus01Poly, Torus01Vec,
};
use vstd::prelude::*;

verus! {

/// Coefficient-wise sum of two torus sequences.
pub open spec fn add_seq(x: Seq<Torus01>, y: Seq<Torus01>) -> Seq<Torus01> {
    Seq::new(x.len(), |i: int| Torus01 { fix: tor(x[i].fix + y[i].fix) as u32 })
}

/// Coefficient-wise difference of two torus sequences.
pub open spec fn sub_seq(x: Seq<Torus01>, y: Seq<Torus01>) -> Seq<Torus01> {
    Seq::new(x.len(), |i: int| Torus01 { fix: tor(x[i].fix - y[i].fix) as u32 })
}

/// A TRLWE sample `(a, b)`: `b - a * s` holds the message, coefficient-wise.
#[derive(Debug, Clone)]
pub struct TRLWE {
    pub a: Torus01Poly,
    pub b: Torus01Poly,
}

/// Coefficient `k` of the phase `b - a * s` of a sample.
pub open spec fn phase_coef(c: TRLWE, s: Seq<i64>, k: int) -> int {
    tor(c.b.coef@[k].fix - nc_coef(c.a.coef@, s, k))
}

/// A copy of a polynomial, coefficient for coefficient.
pub fn copy_poly(p: &Torus01Poly) -> (r: Torus01Poly)
    ensures
        r.coef@ == p.coef@,
{
    let r = Torus01Poly { coef: p.coef.clone() };
    proof {
        assert(r.coef@ =~= p.coef@);
    }
    r
}

/// A polynomial of `n` uniform torus coefficients.
pub fn uniform_poly(n: usize) -> (r: Torus01Poly)
    ensures
        r.coef@.len() == n,
{
    let mut v: Vec<Torus01> = Vec::new();
    let mut i: usize = 0;
    while i < n
        invariant
            i <= n,
            v@.len() == i,
        decreases n - i,
    {
        v.push(Torus01::new_with_fix(rand::random::<u32>()));
        i += 1;
    }
    Torus01Poly::new_with_torus(v)
}

impl TRLWE {
    /// A copy of the sample.
    pub fn duplicate(&self) -> (r: TRLWE)
        ensures
            r.a.coef@ == self.a.coef@,
            r.b.coef@ == self.b.coef@,
    {
        TRLWE { a: copy_poly(&self.a), b: copy_poly(&self.b) }
    }

    /// The trivial sample `(0, b)`: no secrecy, only a starting value.
    pub fn new_obvious_with_fix(b: Vec<u32>) -> (r: TRLWE)
        ensures
            r.a.coef@.len() == b@.len(),
            forall|i: int| 0 <= i < b@.len() ==> r.a.coef@[i].fix == 0,
            r.b.coef@.len() == b@.len(),
            forall|i: int| 0 <= i < b@.len() ==> r.b.coef@[i].fix == b@[i],
    {
        let mut z: Vec<u32> = Vec::new();
        let mut i: usize = 0;
        while i < b.len()
            invariant
                i <= b@.len(),
                z@.len() == i,
                forall|j: int| 0 <= j < i ==> z@[j] == 0,
            decreases b@.len() - i,
        {
            z.push(0);
            i += 1;
        }
        assert(z@.len() == b@.len());
        let a = Torus01Poly::new_with_fix(z);
        assert forall|j: int| 0 <= j < b@.len() implies a.coef@[j].fix == 0 by {
            assert(a.coef@[j].fix == z@[j]);
            assert(z@[j] == 0);
        }
        TRLWE { a, b: Torus01Poly::new_with_fix(b) }
    }

    /// The sample `(a, a * s + m + e)` for a raw torus message `m`, a given
    /// mask `a` and noise `e`.
    pub fn encrypt_torus_with(m: &Torus01Poly, s: &Vec<i64>, a: Torus01Poly, e: &Torus01Poly) -> (r: TRLWE)
        requires
            a.coef@.len() == s@.len() == m.coef@.len() == e.coef@.len(),
        ensures
            r.a == a,
            r.b.coef@.len() == s@.len(),
            forall|k: int|
                0 <= k < s@.len() ==> #[trigger] r.b.coef@[k].fix == tor(
                    nc_coef(a.coef@, s@, k) + m.coef@[k].fix + e.coef@[k].fix,
                ),
    {
        let p = a.mul(s);
        let q = p.add(m);
        let b = q.add(e);
        assert forall|k: int| 0 <= k < s@.len() implies #[trigger] b.coef@[k].fix == tor(
            nc_coef(a.coef@, s@, k) + m.coef@[k].fix + e.coef@[k].fix,
        ) by {
            lemma_tor_add(nc_coef(a.coef@, s@, k) + m.coef@[k].fix, e.coef@[k].fix as int);
            lemma_tor_small(e.coef@[k].fix as int);
            lemma_tor_bound(nc_coef(a.coef@, s@, k) + m.coef@[k].fix);
        }
        TRLWE { a, b }
    }

    /// Encrypts a raw torus message under `s` with a fresh uniform mask and noise `e`.
    pub fn encrypt_torus(m: &Torus01Poly, s: &Vec<i64>, e: &Torus01Poly) -> (r: TRLWE)
        requires
            s@.len() == m.coef@.len() == e.coef@.len(),
        ensures
            r.a.coef@.len() == s@.len(),
            r.b.coef@.len() == s@.len(),
            forall|k: int|
                0 <= k < s@.len() ==> #[trigger] r.b.coef@[k].fix == tor(
                    nc_coef(r.a.coef@, s@, k) + m.coef@[k].fix + e.coef@[k].fix,
                ),
    {
        let a = uniform_poly(s.len());
        TRLWE::encrypt_torus_with(m, s, a, e)
    }

    /// Encrypts one bit per coefficient: coefficient `k` of the phase is
    /// `encode(m[k]) + e[k]`.
    pub fn encrypt(m: &Vec<u32>, s: &Vec<i64>, e: &Torus01Poly, mu_bit: u32) -> (r: TRLWE)
        requires
            s@.len() == m@.len() == e.coef@.len(),
            forall|k: int| 0 <= k < m@.len() ==> m@[k] <= 1,
            valid_mu_bit(mu_bit),
        ensures
            r.a.coef@.len() == s@.len(),
            r.b.coef@.len() == s@.len(),
            forall|k: int|
                0 <= k < s@.len() ==> #[trigger] r.b.coef@[k].fix == tor(
                    nc_coef(r.a.coef@, s@, k) + tor(encode(m@[k], mu_bit)) + e.coef@[k].fix,
                ),
    {
        let mut v: Vec<Torus01> = Vec::new();
        let mut i: usize = 0;
        while i < m.len()
            invariant
                i <= m@.len(),
                v@.len() == i,
                forall|k: int| 0 <= k < m@.len() ==> m@[k] <= 1,
                valid_mu_bit(mu_bit),
                forall|j: int| 0 <= j < i ==> v@[j].fix == tor(encode(m@[j], mu_bit)),
            decreases m@.len() - i,
        {
            v.push(encode_fix(m[i], mu_bit));
            i += 1;
        }
        TRLWE::encrypt_torus(&Torus01Poly::new_with_torus(v), s, e)
    }

    /// Each coefficient of the phase under `s` rounded to the nearest
    /// multiple of `delta`.
    pub fn decrypt(&self, s: &Vec<i64>, mu_bit: u32) -> (r: Vec<u32>)
        requires
            self.a.coef@.len() == s@.len() == self.b.coef@.len(),
            valid_mu_bit(mu_bit),
        ensures
            r@.len() == s@.len(),
            forall|k: int| 0 <= k < s@.len() ==> #[trigger] r@[k] == decode(phase_coef(*self, s@, k), mu_bit),
    {
        let p = self.a.mul(s);
        let d = self.b.sub(&p);
        let mut out: Vec<u32> = Vec::new();
        let mut k: usize = 0;
        while k < s.len()
            invariant
                k <= s@.len(),
                d.coef@.len() == s@.len() == self.b.coef@.len() == p.coef@.len(),
                forall|j: int|
                    0 <= j < s@.len() ==> d.coef@[j].fix == tor(self.b.coef@[j].fix - p.coef@[j].fix),
                forall|j: int| 0 <= j < s@.len() ==> p.coef@[j].fix == nc_coef(self.a.coef@, s@, j),
                out@.len() == k,
                valid_mu_bit(mu_bit),
                forall|j: int| 0 <= j < k ==> #[trigger] out@[j] == decode(phase_coef(*self, s@, j), mu_bit),
            decreases s@.len() - k,
        {
            let x = d.coef[k].fix;
            proof {
                let ph = phase_coef(*self, s@, k as int);
                assert(x == ph);
            }
            out.push(round_phase(x, mu_bit));
            k += 1;
        }
        out
    }

    /// Coefficient-wise sum of two samples.
    pub fn add(&self, rhs: &TRLWE) -> (r: TRLWE)
        requires
            self.a.coef@.len() == rhs.a.coef@.len(),
            self.b.coef@.len() == rhs.b.coef@.len(),
        ensures
            r.a.coef@ == add_seq(self.a.coef@, rhs.a.coef@),
            r.b.coef@ == add_seq(self.b.coef@, rhs.b.coef@),
    {
        let r = TRLWE { a: self.a.add(&rhs.a), b: self.b.add(&rhs.b) };
        assert(r.a.coef@ =~= add_seq(self.a.coef@, rhs.a.coef@));
        assert(r.b.coef@ =~= add_seq(self.b.coef@, rhs.b.coef@));
        r
    }

    /// Coefficient-wise difference of two samples.
    pub fn sub(&self, rhs: &TRLWE) -> (r: TRLWE)
        requires
            self.a.coef@.len() == rhs.a.coef@.len(),
            self.b.coef@.len() == rhs.b.coef@.len(),
        ensures
            r.a.coef@ == sub_seq(self.a.coef@, rhs.a.coef@),
            r.b.coef@ == sub_seq(self.b.coef@, rhs.b.coef@),
    {
        let r = TRLWE { a: self.a.sub(&rhs.a), b: self.b.sub(&rhs.b) };
        assert(r.a.coef@ =~= sub_seq(self.a.coef@, rhs.a.coef@));
        assert(r.b.coef@ =~= sub_seq(self.b.coef@, rhs.b.coef@));
        r
    }
}

} // verus!
