use crate::blind_rotate::{blind_rotate, br_state};
use crate::tlwe::{half_fix, half_scale, phase, uniform_vec, valid_mu_bit, TLWE};
use crate::torus::{
    dot, lemma_tor_add, lemma_tor_bound, lemma_tor_mul, lemma_tor_small, lemma_tor_sub, nc_sum, tor,
    Torus01, Torus01Vec,
};
use crate::trgsw::{digit, gadget_digit, gadget_offset, offset_of, valid_gadget, TRGSW};
use crate::trlwe::{phase_coef, TRLWE};
use vstd::prelude::*;

verus! {

/// The mask of the TLWE sample held in coefficient 0 of a TRLWE sample with
/// mask `a`: `a[0]`, then `-a[N - i]` for `i >= 1`.
pub open spec fn extract_a(a: Seq<Torus01>) -> Seq<Torus01> {
    Seq::new(
        a.len(),
        |i: int|
            if i == 0 {
                a[0]
            } else {
                Torus01 { fix: tor(-a[a.len() - i].fix) as u32 }
            },
    )
}

/// Digit of entry `q` of the key-switching key for the mask `ca`: level
/// `q % t` of coefficient `q / t`.
pub open spec fn ks_digit(ca: Seq<Torus01>, q: int, t: int, basebit: int) -> int {
    digit(ca[q / t].fix as int, q % t, t, basebit)
}

/// The first `q` weighted key-switching entries, on mask coefficient `m`, or
/// on the body when `m` is `None`.
pub open spec fn ks_sum(ca: Seq<Torus01>, ks: Seq<TLWE>, t: int, basebit: int, m: Option<int>, q: int) -> int
    decreases q,
{
    if q <= 0 {
        0
    } else {
        let v = match m {
            Some(i) => ks[q - 1].a.coef@[i].fix as int,
            None => ks[q - 1].b.fix as int,
        };
        ks_sum(ca, ks, t, basebit, m, q - 1) + ks_digit(ca, q - 1, t, basebit) * v
    }
}

/// A key-switching key fits a mask of dimension `big_n` and a target of dimension `n`.
pub open spec fn ks_fits(ks: Seq<TLWE>, big_n: int, n: int, t: int, basebit: int) -> bool {
    &&& valid_gadget(t, basebit)
    &&& ks.len() == big_n * t
    &&& forall|q: int| 0 <= q < ks.len() ==> (#[trigger] ks[q]).a.coef@.len() == n
}

/// `sum_{i < m} x[i] * s[i]`, read front to back.
pub open spec fn head_sum(x: Seq<Torus01>, s: Seq<i64>, m: int) -> int
    decreases m,
{
    if m <= 0 {
        0
    } else {
        head_sum(x, s, m - 1) + x[m - 1].fix * s[m - 1]
    }
}

/// `sum_{k <= i < len} x[i] * s[i]`.
pub open spec fn tail_sum(x: Seq<Torus01>, s: Seq<i64>, k: int) -> int
    decreases x.len() - k,
{
    if k >= x.len() {
        0
    } else {
        x[k].fix * s[k] + tail_sum(x, s, k + 1)
    }
}

proof fn lemma_dot_is_head_sum(x: Seq<Torus01>, s: Seq<i64>, m: int)
    requires
        0 <= m <= x.len(),
        m <= s.len(),
    ensures
        dot(x.subrange(0, m), s.subrange(0, m)) == head_sum(x, s, m),
    decreases m,
{
    if m > 0 {
        lemma_dot_is_head_sum(x, s, m - 1);
        assert(x.subrange(0, m).drop_last() =~= x.subrange(0, m - 1));
        assert(s.subrange(0, m).drop_last() =~= s.subrange(0, m - 1));
    }
}

proof fn lemma_head_tail(x: Seq<Torus01>, s: Seq<i64>, k: int)
    requires
        0 <= k <= x.len(),
    ensures
        head_sum(x, s, k) + tail_sum(x, s, k) == head_sum(x, s, x.len() as int),
    decreases x.len() - k,
{
    if k < x.len() {
        lemma_head_tail(x, s, k + 1);
    }
}

proof fn lemma_extract_prefix(a: Seq<Torus01>, s: Seq<i64>, m: int)
    requires
        a.len() == s.len(),
        1 <= m <= a.len(),
    ensures
        tor(nc_sum(a, s, 0, m)) == tor(
            extract_a(a)[0].fix * s[0] + tail_sum(extract_a(a), s, a.len() - m + 1),
        ),
    decreases m,
{
    let n = a.len() as int;
    let ea = extract_a(a);
    if m == 1 {
        assert(nc_sum(a, s, 0, 0) == 0);
    } else {
        lemma_extract_prefix(a, s, m - 1);
        let t = m - 1;
        let prev = ea[0].fix * s[0] + tail_sum(ea, s, n - t + 1);
        let v = a[t].fix * s[n - t];
        assert(nc_sum(a, s, 0, m) == nc_sum(a, s, 0, t) - v);
        assert(ea[n - t].fix == tor(-a[t].fix));
        assert(tail_sum(ea, s, n - t) == ea[n - t].fix * s[n - t] + tail_sum(ea, s, n - t + 1));
        lemma_tor_sub(nc_sum(a, s, 0, t), v);
        lemma_tor_sub(prev, v);
        lemma_tor_mul(-a[t].fix, s[n - t] as int);
        assert(ea[n - t].fix * s[n - t] == tor(-a[t].fix) * s[n - t]);
        assert(-a[t].fix * s[n - t] == -v) by (nonlinear_arith)
            requires
                v == a[t].fix * s[n - t],
        ;
        lemma_tor_add(prev, ea[n - t].fix * s[n - t]);
        lemma_tor_add(prev, -v);
        assert(prev + ea[n - t].fix * s[n - t] == ea[0].fix * s[0] + tail_sum(ea, s, n - t));
    }
}

/// Extraction keeps the phase: the phase of the extracted sample under the
/// ring key's coefficients is coefficient 0 of the ring sample's phase.
pub proof fn lemma_extract_phase(c: TRLWE, e: TLWE, big_s: Seq<i64>)
    requires
        c.a.coef@.len() == c.b.coef@.len() == big_s.len() >= 1,
        e.a.coef@ == extract_a(c.a.coef@),
        e.b == c.b.coef@[0],
    ensures
        phase(e, big_s) == phase_coef(c, big_s, 0),
{
    let a = c.a.coef@;
    let n = a.len() as int;
    let ea = extract_a(a);
    lemma_extract_prefix(a, big_s, n);
    lemma_dot_is_head_sum(ea, big_s, n);
    assert(ea.subrange(0, n) =~= ea);
    assert(big_s.subrange(0, n) =~= big_s);
    lemma_head_tail(ea, big_s, 1);
    assert(head_sum(ea, big_s, 0) == 0);
    assert(head_sum(ea, big_s, 1) == ea[0].fix * big_s[0]);
    lemma_tor_sub(e.b.fix as int, dot(ea, big_s));
    lemma_tor_sub(e.b.fix as int, nc_sum(a, big_s, 0, n));
}

impl TRLWE {
    /// The TLWE sample, of dimension `N`, whose phase is coefficient 0 of
    /// this sample's phase.
    pub fn sample_extract(&self) -> (r: TLWE)
        requires
            self.a.coef@.len() >= 1,
            self.b.coef@.len() >= 1,
        ensures
            r.a.coef@ == extract_a(self.a.coef@),
            r.b == self.b.coef@[0],
    {
        let n = self.a.coef.len();
        let mut v: Vec<Torus01> = Vec::new();
        v.push(self.a.coef[0]);
        let mut i: usize = 1;
        while i < n
            invariant
                n == self.a.coef@.len(),
                1 <= i <= n,
                v@.len() == i,
                forall|j: int| 0 <= j < i ==> v@[j] == extract_a(self.a.coef@)[j],
            decreases n - i,
        {
            proof {
                lemma_tor_bound(-self.a.coef@[n - i].fix);
            }
            v.push(self.a.coef[n - i].neg());
            i += 1;
        }
        let r = TLWE { a: Torus01Vec::new_with_torus(v), b: self.b.coef[0] };
        assert(r.a.coef@ =~= extract_a(self.a.coef@));
        r
    }
}

/// Key switching: takes a sample of dimension `N` to one of dimension `n`,
/// starting from `(0, b)` and subtracting each key-switching entry times the
/// matching digit of the mask.
pub fn identity_key_switch(c: &TLWE, ks: &Vec<TLWE>, t: usize, basebit: u32, n: usize) -> (r: TLWE)
    requires
        ks_fits(ks@, c.a.coef@.len() as int, n as int, t as int, basebit as int),
    ensures
        r.a.coef@.len() == n,
        forall|m: int|
            0 <= m < n ==> (#[trigger] r.a.coef@[m]).fix == tor(
                -ks_sum(c.a.coef@, ks@, t as int, basebit as int, Some(m), ks@.len() as int),
            ),
        r.b.fix == tor(
            c.b.fix - ks_sum(c.a.coef@, ks@, t as int, basebit as int, None, ks@.len() as int),
        ),
{
    let off = offset_of(t, basebit);
    let total = ks.len();
    let mut a: Vec<Torus01> = Vec::new();
    let mut m: usize = 0;
    while m < n
        invariant
            m <= n,
            a@.len() == m,
            forall|j: int| 0 <= j < m ==> (#[trigger] a@[j]).fix == 0,
        decreases n - m,
    {
        a.push(Torus01::new_with_fix(0));
        m += 1;
    }
    let mut acc = TLWE { a: Torus01Vec::new_with_torus(a), b: c.b };
    let ghost ca = c.a.coef@;
    proof {
        lemma_tor_small(c.b.fix as int);
        assert forall|j: int| 0 <= j < n implies (#[trigger] acc.a.coef@[j]).fix == tor(
            -ks_sum(ca, ks@, t as int, basebit as int, Some(j), 0),
        ) by {
            lemma_tor_small(0);
        }
    }
    let mut q: usize = 0;
    while q < total
        invariant
            ks_fits(ks@, ca.len() as int, n as int, t as int, basebit as int),
            ca == c.a.coef@,
            total == ks@.len(),
            off == gadget_offset(t as int, basebit as int, t as int),
            q <= total,
            acc.a.coef@.len() == n,
            forall|j: int|
                0 <= j < n ==> (#[trigger] acc.a.coef@[j]).fix == tor(
                    -ks_sum(ca, ks@, t as int, basebit as int, Some(j), q as int),
                ),
            acc.b.fix == tor(c.b.fix - ks_sum(ca, ks@, t as int, basebit as int, None, q as int)),
        decreases total - q,
    {
        let i = q / t;
        let j = q % t;
        proof {
            assert(i < ca.len()) by (nonlinear_arith)
                requires
                    i == q / t,
                    q < ca.len() * t,
                    t >= 1,
            ;
        }
        let d = gadget_digit(c.a.coef[i].fix, j, t, basebit, off);
        let e = &ks[q];
        let ghost old_acc = acc;
        let sa = e.a.scale(d);
        acc.a.sub_assign(&sa);
        let sb = e.b.mul(d);
        acc.b = acc.b.sub(sb);
        proof {
            let dd = ks_digit(ca, q as int, t as int, basebit as int);
            assert(d == dd);
            assert forall|k: int| 0 <= k < n implies (#[trigger] acc.a.coef@[k]).fix == tor(
                -ks_sum(ca, ks@, t as int, basebit as int, Some(k), q + 1),
            ) by {
                let prev = ks_sum(ca, ks@, t as int, basebit as int, Some(k), q as int);
                let w = e.a.coef@[k].fix as int;
                assert(ks_sum(ca, ks@, t as int, basebit as int, Some(k), q + 1) == prev + dd * w);
                assert(sa.coef@[k].fix == tor(w * d));
                lemma_tor_sub(-prev, w * d);
                assert(-prev - w * d == -(prev + dd * w)) by (nonlinear_arith)
                    requires
                        d == dd,
                ;
                assert(acc.a.coef@[k].fix == tor(old_acc.a.coef@[k].fix - sa.coef@[k].fix));
            }
            let prevb = ks_sum(ca, ks@, t as int, basebit as int, None, q as int);
            let wb = e.b.fix as int;
            lemma_tor_sub(c.b.fix - prevb, wb * d);
            assert(c.b.fix - prevb - wb * d == c.b.fix - (prevb + dd * wb)) by (nonlinear_arith)
                requires
                    d == dd,
            ;
        }
        q += 1;
    }
    acc
}

/// The key-switching key from `big_s` (dimension `N`) to `s` (dimension `n`):
/// entry `i * t + j` encrypts `big_s[i] * 2^-(basebit * (j + 1))` under `s`
/// with noise `noise[i * t + j]`.
pub fn gen_keyswitch_key(big_s: &Vec<i64>, s: &Vec<i64>, t: usize, basebit: u32, noise: &Vec<Torus01>) -> (r: Vec<TLWE>)
    requires
        valid_gadget(t as int, basebit as int),
        noise@.len() == big_s@.len() * t,
    ensures
        ks_fits(r@, big_s@.len() as int, s@.len() as int, t as int, basebit as int),
        forall|q: int|
            0 <= q < r@.len() ==> (#[trigger] r@[q]).b.fix == tor(
                dot(r@[q].a.coef@, s@) + big_s@[q / t as int] * (1u32 << ((32 - (q % t as int + 1)
                    * basebit) as u32)) as int + noise@[q].fix,
            ),
{
    proof {
        assert(basebit <= t * basebit && t <= t * basebit) by (nonlinear_arith)
            requires
                1 <= basebit,
                1 <= t,
        ;
    }
    let total = noise.len();
    let mut out: Vec<TLWE> = Vec::new();
    let mut q: usize = 0;
    while q < total
        invariant
            valid_gadget(t as int, basebit as int),
            t <= 31,
            basebit <= 31,
            total == noise@.len() == big_s@.len() * t,
            q <= total,
            out@.len() == q,
            forall|p: int| 0 <= p < q ==> (#[trigger] out@[p]).a.coef@.len() == s@.len(),
            forall|p: int|
                0 <= p < q ==> (#[trigger] out@[p]).b.fix == tor(
                    dot(out@[p].a.coef@, s@) + big_s@[p / t as int] * (1u32 << ((32 - (p % t as int + 1)
                        * basebit) as u32)) as int + noise@[p].fix,
                ),
        decreases total - q,
    {
        let i = q / t;
        let j = q % t;
        proof {
            assert(i < big_s@.len()) by (nonlinear_arith)
                requires
                    i == q / t,
                    q < big_s@.len() * t,
                    t >= 1,
            ;
            assert((j + 1) * basebit <= t * basebit && 1 <= (j + 1) * basebit) by (nonlinear_arith)
                requires
                    j < t,
                    1 <= basebit,
            ;
        }
        let g: u32 = 1u32 << (32 - ((j as u32) + 1) * basebit);
        let msg = Torus01::new_with_fix(g).mul(big_s[i]);
        let a = uniform_vec(s.len());
        let d = a.dot(s);
        let b = d.add(msg).add(noise[q]);
        proof {
            let x = dot(a.coef@, s@);
            let y = g as int * big_s@[i as int];
            assert(y == big_s@[i as int] * g as int) by (nonlinear_arith)
                requires
                    y == g as int * big_s@[i as int],
            ;
            lemma_tor_add(x, y);
            lemma_tor_add(x + y, noise@[q as int].fix as int);
            lemma_tor_small(noise@[q as int].fix as int);
        }
        out.push(TLWE { a, b });
        q += 1;
    }
    out
}

/// Mask of the linear part of NAND on masks `a1`, `a2`.
pub open spec fn nand_lin_a(a1: Seq<Torus01>, a2: Seq<Torus01>) -> Seq<Torus01> {
    Seq::new(a1.len(), |i: int| Torus01 { fix: tor(-a1[i].fix - a2[i].fix) as u32 })
}

/// Body of the linear part of NAND on bodies `b1`, `b2`.
pub open spec fn nand_lin_b(b1: u32, b2: u32, mu_bit: u32) -> u32 {
    tor(half_scale(mu_bit) - b1 - b2) as u32
}

/// The linear part of NAND: `(0, delta / 2) - c1 - c2`. With bits encoded
/// as `m * delta`, its phase is `delta / 2` for (0, 0), `-delta / 2` for one
/// 1 and `-3 delta / 2` for (1, 1).
pub fn nand_linear(c1: &TLWE, c2: &TLWE, mu_bit: u32) -> (r: TLWE)
    requires
        valid_mu_bit(mu_bit),
        c1.a.coef@.len() == c2.a.coef@.len(),
    ensures
        r.a.coef@.len() == c1.a.coef@.len(),
        forall|i: int|
            0 <= i < c1.a.coef@.len() ==> (#[trigger] r.a.coef@[i]).fix == tor(
                -c1.a.coef@[i].fix - c2.a.coef@[i].fix,
            ),
        r.b.fix == tor(half_scale(mu_bit) - c1.b.fix - c2.b.fix),
{
    let mut a = c1.a.neg();
    a.sub_assign(&c2.a);
    let h = Torus01::new_with_fix(half_fix(mu_bit));
    let b = h.sub(c1.b).sub(c2.b);
    proof {
        assert forall|i: int| 0 <= i < c1.a.coef@.len() implies (#[trigger] a.coef@[i]).fix == tor(
            -c1.a.coef@[i].fix - c2.a.coef@[i].fix,
        ) by {
            lemma_tor_sub(-c1.a.coef@[i].fix, c2.a.coef@[i].fix as int);
            lemma_tor_small(c2.a.coef@[i].fix as int);
        }
        lemma_tor_sub(h.fix - c1.b.fix, c2.b.fix as int);
        lemma_tor_small(c2.b.fix as int);
    }
    TLWE { a, b }
}

/// Homomorphic NAND with bootstrapping: the linear part of NAND, blind
/// rotation under `bk` with a test polynomial of `+-delta / 2`, extraction
/// of coefficient 0, key switching back to dimension `n` under `ks`, and
/// `delta / 2` added to the body, so that the result holds `delta` for 1
/// and about 0 for 0, as its inputs do. Blind rotation reads `+delta / 2`
/// on phases within `1/4` of zero; the linear part falls there exactly when
/// NAND holds for `delta = 1/4`, that is `mu_bit = 2`.
#[allow(non_snake_case)]
pub fn homnand(
    c1: &TLWE,
    c2: &TLWE,
    bk: &Vec<TRGSW>,
    ks: &Vec<TLWE>,
    mu_bit: u32,
    N: u32,
    N_bit: u32,
    t: usize,
    basebit: u32,
) -> (r: TLWE)
    requires
        mu_bit == 2,
        1 <= N_bit <= 30,
        N == 1u32 << N_bit,
        c1.a.coef@.len() == c2.a.coef@.len() <= bk@.len(),
        forall|i: int| 0 <= i < bk@.len() ==> (#[trigger] bk@[i]).wf(N as int),
        ks_fits(ks@, N as int, c1.a.coef@.len() as int, t as int, basebit as int),
    ensures
        ({
            let st = br_state(
                bk@,
                nand_lin_a(c1.a.coef@, c2.a.coef@),
                nand_lin_b(c1.b.fix, c2.b.fix, mu_bit),
                (mu_bit + 1) as u32,
                N as int,
                N_bit,
                c1.a.coef@.len() as int,
            );
            let ea = extract_a(st.0);
            &&& r.a.coef@.len() == c1.a.coef@.len()
            &&& forall|m: int|
                0 <= m < c1.a.coef@.len() ==> (#[trigger] r.a.coef@[m]).fix == tor(
                    -ks_sum(ea, ks@, t as int, basebit as int, Some(m), ks@.len() as int),
                )
            &&& r.b.fix == tor(
                st.1[0].fix - ks_sum(ea, ks@, t as int, basebit as int, None, ks@.len() as int)
                    + half_scale(mu_bit),
            )
        }),
{
    assert(1 <= N_bit <= 30 ==> 2 <= (1u32 << N_bit)) by (bit_vector);
    let lin = nand_linear(c1, c2, mu_bit);
    assert(lin.a.coef@ =~= nand_lin_a(c1.a.coef@, c2.a.coef@));
    let rot = blind_rotate(&lin, bk, mu_bit + 1, N, N_bit);
    let ext = rot.sample_extract();
    let sw = identity_key_switch(&ext, ks, t, basebit, c1.a.coef.len());
    let h = Torus01::new_with_fix(half_fix(mu_bit));
    proof {
        lemma_tor_add(
            ext.b.fix - ks_sum(extract_a(rot.a.coef@), ks@, t as int, basebit as int, None, ks@.len() as int),
            h.fix as int,
        );
        lemma_tor_small(h.fix as int);
    }
    TLWE { a: sw.a, b: sw.b.add(h) }
}

} // verus!
