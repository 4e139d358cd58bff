use crate::tlwe::{mu_fix, scale_of, valid_mu_bit, TLWE};
use crate::torus::{lemma_tor_bound, lemma_tor_multiple, lemma_tor_small, tor, Torus01, Torus01Poly, TORUS_MOD};
use crate::trgsw::{cmux_seq, zero_poly, TRGSW};
use crate::trlwe::TRLWE;
use vstd::prelude::*;

verus! {

/// The rotation that a torus value stands for: the value rounded to
/// `N_bit + 1` bits, an integer in `[0, 2N)` (the value times `2N`).
pub open spec fn rot_amount(x: u32, n_bit: u32) -> int {
    ((tor(x + (1u32 << ((30 - n_bit) as u32)) as int) as u32) >> ((31 - n_bit) as u32)) as int
}

/// `p` times the monomial `X^r` in `T[X] / (X^N + 1)`, for `0 <= r < 2N`:
/// `X^N = -1` flips every sign when `r >= N`, and a coefficient that wraps
/// past degree `N - 1` comes back negated.
pub open spec fn mono_rot(p: Seq<Torus01>, r: int) -> Seq<Torus01> {
    let n = p.len() as int;
    let rr = if r >= n {
        r - n
    } else {
        r
    };
    let flip = r >= n;
    Seq::new(
        p.len(),
        |k: int|
            {
                let v = if k >= rr {
                    p[k - rr]
                } else {
                    p[k - rr + n]
                };
                let negate = if k >= rr {
                    flip
                } else {
                    !flip
                };
                if negate {
                    Torus01 { fix: tor(-v.fix) as u32 }
                } else {
                    v
                }
            },
    )
}

/// The test polynomial: `+mu` on the lower half of the `N` coefficients,
/// `!mu = -mu - 2^-32` on the upper half.
pub open spec fn test_poly(n: int, mu_bit: u32) -> Seq<Torus01> {
    Seq::new(
        n as nat,
        |k: int|
            if k < n / 2 {
                Torus01 { fix: scale_of(mu_bit) as u32 }
            } else {
                Torus01 { fix: tor(-scale_of(mu_bit) - 1) as u32 }
            },
    )
}

/// The accumulator of blind rotation after the first `i` key bits: it starts
/// as `(0, X^(-round(b)) * test)` and each step selects, under TRGSW sample `i`,
/// between itself and itself times `X^round(a[i])`.
pub open spec fn br_state(
    bk: Seq<TRGSW>,
    a: Seq<Torus01>,
    b: u32,
    mu_bit: u32,
    n: int,
    n_bit: u32,
    i: int,
) -> (Seq<Torus01>, Seq<Torus01>)
    decreases i,
{
    if i <= 0 {
        (
            Seq::new(n as nat, |k: int| Torus01 { fix: 0 }),
            mono_rot(test_poly(n, mu_bit), (2 * n - rot_amount(b, n_bit)) % (2 * n)),
        )
    } else {
        let prev = br_state(bk, a, b, mu_bit, n, n_bit, i - 1);
        let r = rot_amount(a[i - 1].fix, n_bit);
        let oa = mono_rot(prev.0, r);
        let ob = mono_rot(prev.1, r);
        let g = bk[i - 1];
        (
            cmux_seq(g.rows@, prev.0, prev.1, oa, ob, g.l as int, g.bgbit as int, true),
            cmux_seq(g.rows@, prev.0, prev.1, oa, ob, g.l as int, g.bgbit as int, false),
        )
    }
}

/// The rotation that `x` stands for on a ring of `2^n_bit` coefficients.
pub fn rotation_of(x: u32, n_bit: u32) -> (r: u32)
    requires
        1 <= n_bit <= 30,
    ensures
        r == rot_amount(x, n_bit),
        r < 2 * (1u32 << n_bit),
{
    let h: u32 = 1u32 << (30 - n_bit);
    proof {
        lemma_tor_bound(x + h);
    }
    let y: u32 = ((x as u64 + h as u64) % TORUS_MOD) as u32;
    let r: u32 = y >> (31 - n_bit);
    assert(1 <= n_bit <= 30 ==> (y >> ((31 - n_bit) as u32)) < 2 * (1u32 << n_bit)) by (bit_vector);
    r
}

/// `p` times `X^r`, for `0 <= r < 2N`.
pub fn rotate(p: &Torus01Poly, r: usize) -> (q: Torus01Poly)
    requires
        r < 2 * p.coef@.len(),
    ensures
        q.coef@ == mono_rot(p.coef@, r as int),
{
    let n = p.coef.len();
    let flip = r >= n;
    let rr: usize = if flip {
        r - n
    } else {
        r
    };
    let mut out: Vec<Torus01> = Vec::new();
    let mut k: usize = 0;
    while k < n
        invariant
            n == p.coef@.len(),
            rr < n || n == 0,
            rr == (if r >= n { r - n } else { r as int }),
            flip == (r >= n),
            k <= n,
            out@.len() == k,
            forall|j: int| 0 <= j < k ==> out@[j] == mono_rot(p.coef@, r as int)[j],
        decreases n - k,
    {
        let (v, negate) = if k >= rr {
            (p.coef[k - rr], flip)
        } else {
            (p.coef[n - (rr - k)], !flip)
        };
        let w = if negate {
            v.neg()
        } else {
            v
        };
        proof {
            lemma_tor_bound(-v.fix);
        }
        out.push(w);
        k += 1;
    }
    let q = Torus01Poly::new_with_torus(out);
    assert(q.coef@ =~= mono_rot(p.coef@, r as int));
    q
}

/// Blind rotation: rotates the test polynomial by the phase of `tlwe`, one
/// CMUX per key bit, under the bootstrapping key `trgsws`. `N` is the ring
/// dimension `2^N_bit`. The result is the test polynomial times
/// `X^(-phase * 2N)`: its coefficient 0 holds `+mu` for a phase within `1/4`
/// of zero and `!mu` otherwise. Key bits past the mask's length go unused.
#[allow(non_snake_case)]
pub fn blind_rotate(tlwe: &TLWE, trgsws: &Vec<TRGSW>, mu_bit: u32, N: u32, N_bit: u32) -> (r: TRLWE)
    requires
        valid_mu_bit(mu_bit),
        1 <= N_bit <= 30,
        N == 1u32 << N_bit,
        tlwe.a.coef@.len() <= trgsws@.len(),
        forall|i: int| 0 <= i < trgsws@.len() ==> (#[trigger] trgsws@[i]).wf(N as int),
    ensures
        r.a.coef@.len() == N,
        r.b.coef@.len() == N,
        (r.a.coef@, r.b.coef@) == br_state(
            trgsws@,
            tlwe.a.coef@,
            tlwe.b.fix,
            mu_bit,
            N as int,
            N_bit,
            tlwe.a.coef@.len() as int,
        ),
{
    assert(1 <= N_bit <= 30 ==> 2 <= (1u32 << N_bit) <= 0x4000_0000) by (bit_vector);
    let n = tlwe.a.coef.len();
    let nn = N as usize;
    let mu = mu_fix(mu_bit);
    let mut tv: Vec<Torus01> = Vec::new();
    let mut k: usize = 0;
    while k < nn
        invariant
            nn == N,
            2 <= N,
            mu == scale_of(mu_bit),
            k <= nn,
            tv@.len() == k,
            forall|j: int| 0 <= j < k ==> tv@[j] == test_poly(N as int, mu_bit)[j],
        decreases nn - k,
    {
        if k < nn / 2 {
            tv.push(Torus01::new_with_fix(mu));
        } else {
            proof {
                lemma_tor_multiple(1, -mu - 1);
                lemma_tor_small(TORUS_MOD - mu - 1);
            }
            tv.push(Torus01::new_with_fix(0xffff_ffffu32 - mu));
        }
        k += 1;
    }
    let tv = Torus01Poly::new_with_torus(tv);
    assert(tv.coef@ =~= test_poly(N as int, mu_bit));
    let rb = rotation_of(tlwe.b.fix, N_bit);
    let two_n: usize = 2 * nn;
    let shift: usize = (two_n - rb as usize) % two_n;
    let mut acc = TRLWE { a: zero_poly(nn), b: rotate(&tv, shift) };
    assert forall|j: int| 0 <= j < nn implies acc.a.coef@[j] == Torus01 { fix: 0 } by {
        assert(acc.a.coef@[j].fix == 0);
    }
    assert(acc.a.coef@ =~= Seq::new(N as nat, |k: int| Torus01 { fix: 0 }));
    let mut i: usize = 0;
    while i < n
        invariant
            n == tlwe.a.coef@.len() <= trgsws@.len(),
            nn == N,
            1 <= N_bit <= 30,
            N == 1u32 << N_bit,
            forall|j: int| 0 <= j < trgsws@.len() ==> (#[trigger] trgsws@[j]).wf(N as int),
            i <= n,
            acc.a.coef@.len() == nn,
            acc.b.coef@.len() == nn,
            (acc.a.coef@, acc.b.coef@) == br_state(
                trgsws@,
                tlwe.a.coef@,
                tlwe.b.fix,
                mu_bit,
                N as int,
                N_bit,
                i as int,
            ),
        decreases n - i,
    {
        let ra = rotation_of(tlwe.a.coef[i].fix, N_bit);
        let one = TRLWE { a: rotate(&acc.a, ra as usize), b: rotate(&acc.b, ra as usize) };
        let g = &trgsws[i];
        acc = g.cmux(&acc, &one);
        i += 1;
    }
    acc
}

} // verus!
