use crate::torus::{
    dot, lemma_tor_add, lemma_tor_bound, lemma_tor_mul, lemma_tor_multiple, lemma_tor_small,
    lemma_tor_sub, tor, Torus01, Torus01Vec, TORUS_MOD,
};
use vstd::arithmetic::div_mod::lemma_fundamental_div_mod_converse_div;
use vstd::prelude::*;

verus! {

/// The message scale `delta = 2^(32 - mu_bit)` in fixed point (`1/8` for `mu_bit = 3`).
pub open spec fn scale_of(mu_bit: u32) -> int {
    (1u32 << ((32 - mu_bit) as u32)) as int
}

/// Half the message scale, `delta / 2`, rounded down (0 when `delta` is one unit).
pub open spec fn half_scale(mu_bit: u32) -> int {
    if mu_bit >= 32 {
        0
    } else {
        (1u32 << ((31 - mu_bit) as u32)) as int
    }
}

/// The torus value that encodes bit `m`: `m * delta`.
pub open spec fn encode(m: u32, mu_bit: u32) -> int {
    m * scale_of(mu_bit)
}

/// The multiple of `delta` nearest to the phase `p`, as its index in
/// `[0, 2^mu_bit)`: 0 or 1 for a phase within `delta / 2` of an encoded
/// bit; any other value only comes from noise beyond the budget.
pub open spec fn decode(p: int, mu_bit: u32) -> int {
    tor(p + half_scale(mu_bit)) / scale_of(mu_bit)
}

/// Whether a noise value lies within `delta / 2` of zero on the torus
/// (below it on the positive side, at most it on the negative side).
pub open spec fn small_noise(e: int, mu_bit: u32) -> bool {
    e == 0 || e < half_scale(mu_bit) || TORUS_MOD - half_scale(mu_bit) <= e
}

pub open spec fn valid_mu_bit(mu_bit: u32) -> bool {
    1 <= mu_bit <= 32
}

pub open spec fn is_bit_key(s: Seq<i64>) -> bool {
    forall|i: int| 0 <= i < s.len() ==> #[trigger] s[i] == 0 || s[i] == 1
}

/// The multiple of `delta` nearest to the phase `p`, as its index.
pub fn round_phase(p: u32, mu_bit: u32) -> (r: u32)
    requires
        valid_mu_bit(mu_bit),
    ensures
        r == decode(p as int, mu_bit),
{
    let mu = mu_fix(mu_bit);
    let h = half_fix(mu_bit);
    proof {
        lemma_tor_bound(p + h);
    }
    let y: u32 = ((p as u64 + h as u64) % TORUS_MOD) as u32;
    y / mu
}

/// A TLWE sample `(a, b)` with `b - <a, s>` near the encoded bit.
#[derive(Debug, Clone)]
pub struct TLWE {
    pub a: Torus01Vec,
    pub b: Torus01,
}

/// The phase `b - <a, s>` of a sample under key `s`.
pub open spec fn phase(c: TLWE, s: Seq<i64>) -> int {
    tor(c.b.fix - dot(c.a.coef@, s))
}

pub fn mu_fix(mu_bit: u32) -> (r: u32)
    requires
        valid_mu_bit(mu_bit),
    ensures
        r == scale_of(mu_bit),
        1 <= r <= 0x8000_0000,
{
    let sh: u32 = 32 - mu_bit;
    assert(1 <= mu_bit <= 32 ==> 1 <= (1u32 << ((32 - mu_bit) as u32)) <= 0x8000_0000) by (bit_vector);
    1u32 << sh
}

/// Half the message scale in fixed point.
pub fn half_fix(mu_bit: u32) -> (r: u32)
    requires
        valid_mu_bit(mu_bit),
    ensures
        r == half_scale(mu_bit),
        2 * r <= scale_of(mu_bit),
        mu_bit < 32 ==> 2 * r == scale_of(mu_bit),
{
    assert(1 <= mu_bit <= 31 ==> (1u32 << ((32 - mu_bit) as u32)) == 2 * (1u32 << ((31 - mu_bit) as u32))) by (bit_vector);
    assert(mu_bit == 32 ==> (1u32 << ((32 - mu_bit) as u32)) == 1) by (bit_vector);
    if mu_bit == 32 {
        0
    } else {
        1u32 << (31 - mu_bit)
    }
}

/// The torus element that encodes bit `m` at scale `mu_bit`.
pub fn encode_fix(m: u32, mu_bit: u32) -> (r: Torus01)
    requires
        m <= 1,
        valid_mu_bit(mu_bit),
    ensures
        r.fix == tor(encode(m, mu_bit)),
{
    let mu = mu_fix(mu_bit);
    proof {
        lemma_tor_small(mu as int);
        lemma_tor_small(0);
    }
    if m == 1 {
        Torus01::new_with_fix(mu)
    } else {
        Torus01::new_with_fix(0)
    }
}

/// A secret key of `n` independent uniform bits.
pub fn gen_s(n: usize) -> (r: Vec<i64>)
    ensures
        r@.len() == n,
        is_bit_key(r@),
{
    let mut s: Vec<i64> = Vec::new();
    let mut i: usize = 0;
    while i < n
        invariant
            i <= n,
            s@.len() == i,
            is_bit_key(s@),
        decreases n - i,
    {
        let x: u32 = rand::random::<u32>();
        let bit: u32 = x & 1;
        assert(x & 1 <= 1) by (bit_vector);
        s.push(bit as i64);
        i += 1;
    }
    s
}

/// A vector of `n` uniform torus elements.
pub fn uniform_vec(n: usize) -> (r: Torus01Vec)
    ensures
        r.coef@.len() == n,
{
    let mut v: Vec<Torus01> = Vec::new();
    let mut i: usize = 0;
    while i < n
        invariant
            i <= n,
            v@.len() == i,
        decreases n - i,
    {
        v.push(Torus01::new_with_fix(rand::random::<u32>()));
        i += 1;
    }
    Torus01Vec::new_with_torus(v)
}

impl TLWE {
    /// The sample `(a, <a, s> + encode(m) + e)` for a given mask `a` and noise `e`.
    pub fn encrypt_with(m: u32, s: &Vec<i64>, a: Torus01Vec, e: Torus01, mu_bit: u32) -> (r: TLWE)
        requires
            m <= 1,
            valid_mu_bit(mu_bit),
            a.coef@.len() == s@.len(),
        ensures
            r.a == a,
            r.b.fix == tor(dot(a.coef@, s@) + encode(m, mu_bit) + e.fix),
    {
        let d = a.dot(s);
        let msg = encode_fix(m, mu_bit);
        proof {
            lemma_tor_add(dot(a.coef@, s@), encode(m, mu_bit));
            lemma_tor_add(dot(a.coef@, s@) + encode(m, mu_bit), e.fix as int);
            lemma_tor_small(e.fix as int);
        }
        TLWE { a, b: d.add(msg).add(e) }
    }

    /// Encrypts bit `m` under key `s` with a fresh uniform mask and noise `e`.
    pub fn encrypt(m: u32, s: &Vec<i64>, e: Torus01, mu_bit: u32) -> (r: TLWE)
        requires
            m <= 1,
            valid_mu_bit(mu_bit),
        ensures
            r.a.coef@.len() == s@.len(),
            r.b.fix == tor(dot(r.a.coef@, s@) + encode(m, mu_bit) + e.fix),
    {
        let a = uniform_vec(s.len());
        TLWE::encrypt_with(m, s, a, e, mu_bit)
    }

    /// The phase under `s` rounded to the nearest multiple of `delta`: the
    /// encrypted bit while the noise stays within budget.
    pub fn decrypt(&self, s: &Vec<i64>, mu_bit: u32) -> (r: u32)
        requires
            self.a.coef@.len() == s@.len(),
            valid_mu_bit(mu_bit),
        ensures
            r == decode(phase(*self, s@), mu_bit),
    {
        let d = self.a.dot(s);
        let p = self.b.sub(d);
        round_phase(p.fix, mu_bit)
    }

    /// Component-wise sum of two samples.
    pub fn add(&self, rhs: &TLWE) -> (r: TLWE)
        requires
            self.a.coef@.len() == rhs.a.coef@.len(),
        ensures
            r.a.coef@.len() == self.a.coef@.len(),
            forall|i: int|
                0 <= i < self.a.coef@.len() ==> r.a.coef@[i].fix == tor(
                    self.a.coef@[i].fix + rhs.a.coef@[i].fix,
                ),
            r.b.fix == tor(self.b.fix + rhs.b.fix),
    {
        let mut a = Torus01Vec { coef: self.a.coef.clone() };
        proof {
            assert(a.coef@ =~= self.a.coef@);
        }
        a.add_assign(&rhs.a);
        TLWE { a, b: self.b.add(rhs.b) }
    }
}

/// A phase `m * delta + e` rounds back to `m` while the noise `e` lies within
/// `delta / 2` of zero.
pub proof fn lemma_decode_encoded(m: u32, e: int, mu_bit: u32)
    requires
        m <= 1,
        valid_mu_bit(mu_bit),
        0 <= e < TORUS_MOD,
        small_noise(e, mu_bit),
    ensures
        decode(m * scale_of(mu_bit) + e, mu_bit) == m,
{
    let delta = scale_of(mu_bit);
    let h = half_scale(mu_bit);
    let x = m * delta + e;
    assert(1 <= mu_bit <= 32 ==> 1 <= (1u32 << ((32 - mu_bit) as u32)) <= 0x8000_0000) by (bit_vector);
    assert(1 <= mu_bit <= 31 ==> (1u32 << ((32 - mu_bit) as u32)) == 2 * (1u32 << ((31 - mu_bit) as u32))) by (bit_vector);
    assert(mu_bit == 32 ==> (1u32 << ((32 - mu_bit) as u32)) == 1) by (bit_vector);
    assert(2 * h <= delta);
    assert(mu_bit < 32 ==> 2 * h == delta);
    assert(m * delta <= delta) by (nonlinear_arith)
        requires
            m <= 1,
            delta >= 1,
    ;
    let v = tor(x + h);
    if e == 0 || e < h {
        assert(x + h < m * delta + delta);
        lemma_tor_small(x + h);
    } else {
        assert(TORUS_MOD - h <= e);
        lemma_tor_multiple(-1, x + h);
        assert(TORUS_MOD * -1 + (x + h) == x + h - TORUS_MOD);
        lemma_tor_small(x + h - TORUS_MOD);
    }
    assert(m * delta <= v < m * delta + delta);
    lemma_fundamental_div_mod_converse_div(v, delta, m as int, v - m * delta);
}

/// A sample whose body is `<a, s> + m * delta + e` decrypts to `m` under `s`
/// as long as the noise `e` lies within `delta / 2` of zero.
pub proof fn lemma_round_trip(c: TLWE, s: Seq<i64>, m: u32, e: Torus01, mu_bit: u32)
    requires
        m <= 1,
        valid_mu_bit(mu_bit),
        c.a.coef@.len() == s.len(),
        c.b.fix == tor(dot(c.a.coef@, s) + encode(m, mu_bit) + e.fix),
        small_noise(e.fix as int, mu_bit),
    ensures
        decode(phase(c, s), mu_bit) == m,
{
    let d = dot(c.a.coef@, s);
    let x = m * scale_of(mu_bit) + e.fix;
    lemma_tor_sub(d + x, d);
    assert(d + x - d == x);
    lemma_tor_add(x, half_scale(mu_bit));
    lemma_decode_encoded(m, e.fix as int, mu_bit);
}

/// With the message scale `delta = 1/2`, the sum of two samples decrypts to
/// the exclusive or of their bits while their noises add up to less than
/// `1/4` away from zero.
pub proof fn lemma_sum_decrypts_to_xor(
    c1: TLWE,
    c2: TLWE,
    r: TLWE,
    s: Seq<i64>,
    m1: u32,
    m2: u32,
    e1: Torus01,
    e2: Torus01,
)
    requires
        m1 <= 1,
        m2 <= 1,
        c1.a.coef@.len() == c2.a.coef@.len() == r.a.coef@.len() == s.len(),
        c1.b.fix == tor(dot(c1.a.coef@, s) + encode(m1, 1) + e1.fix),
        c2.b.fix == tor(dot(c2.a.coef@, s) + encode(m2, 1) + e2.fix),
        forall|i: int|
            0 <= i < s.len() ==> #[trigger] r.a.coef@[i].fix == tor(
                c1.a.coef@[i].fix + c2.a.coef@[i].fix,
            ),
        r.b.fix == tor(c1.b.fix + c2.b.fix),
        small_noise(tor(e1.fix + e2.fix), 1),
    ensures
        decode(phase(r, s), 1) == m1 ^ m2,
{
    let delta = scale_of(1);
    assert((1u32 << 31u32) == 0x8000_0000) by (bit_vector);
    let x1 = m1 * delta + e1.fix;
    let x2 = m2 * delta + e2.fix;
    let d1 = dot(c1.a.coef@, s);
    let d2 = dot(c2.a.coef@, s);
    lemma_tor_sub(d1 + x1, d1);
    assert(d1 + x1 - d1 == x1);
    lemma_tor_sub(d2 + x2, d2);
    assert(d2 + x2 - d2 == x2);
    lemma_phase_add(c1, c2, r, s);
    lemma_tor_add(x1, x2);
    let m = m1 ^ m2;
    assert(m <= 1 && (m1 + m2 == m || m1 + m2 == m + 2)) by (bit_vector)
        requires
            m1 <= 1,
            m2 <= 1,
            m == m1 ^ m2,
    ;
    let e = tor(e1.fix + e2.fix);
    assert(m1 * delta + m2 * delta == (m1 + m2) * delta) by (nonlinear_arith);
    assert((m + 2) * delta == m * delta + 2 * delta) by (nonlinear_arith);
    if m1 + m2 == m + 2 {
        lemma_tor_multiple(1, m * delta + e1.fix + e2.fix);
        assert(x1 + x2 == TORUS_MOD * 1 + (m * delta + e1.fix + e2.fix));
    } else {
        assert(x1 + x2 == m * delta + e1.fix + e2.fix);
    }
    lemma_tor_add(m * delta, e1.fix + e2.fix);
    lemma_tor_small(m * delta);
    lemma_tor_bound(e1.fix + e2.fix);
    lemma_tor_add(m * delta + e, half_scale(1));
    lemma_tor_add(tor(x1 + x2), half_scale(1));
    lemma_decode_encoded(m, e, 1);
}

/// Reducing a coefficient-wise sum of two vectors before the inner product
/// leaves the inner product unchanged on the torus.
pub proof fn lemma_dot_add(a1: Seq<Torus01>, a2: Seq<Torus01>, r: Seq<Torus01>, s: Seq<i64>)
    requires
        a1.len() == a2.len() == r.len() == s.len(),
        forall|i: int| 0 <= i < r.len() ==> #[trigger] r[i].fix == tor(a1[i].fix + a2[i].fix),
    ensures
        tor(dot(r, s)) == tor(dot(a1, s) + dot(a2, s)),
    decreases r.len(),
{
    if r.len() > 0 {
        let n = r.len() - 1;
        lemma_dot_add(a1.drop_last(), a2.drop_last(), r.drop_last(), s.drop_last());
        let d1 = dot(a1.drop_last(), s.drop_last());
        let d2 = dot(a2.drop_last(), s.drop_last());
        let dr = dot(r.drop_last(), s.drop_last());
        let x1 = a1[n].fix as int;
        let x2 = a2[n].fix as int;
        let y = s[n] as int;
        lemma_tor_add(dr, r[n].fix * y);
        lemma_tor_mul(y, x1 + x2);
        let rn = r[n].fix as int;
        assert(rn == tor(x1 + x2));
        assert(rn * y == y * tor(x1 + x2)) by (nonlinear_arith)
            requires
                rn == tor(x1 + x2),
        ;
        assert(y * (x1 + x2) == x1 * y + x2 * y) by (nonlinear_arith);
        lemma_tor_add(d1 + d2, x1 * y + x2 * y);
        assert(d1 + d2 + (x1 * y + x2 * y) == (d1 + x1 * y) + (d2 + x2 * y));
    }
}

/// The phase of a sum of samples is the sum of their phases: adding samples
/// adds the messages they encode, noise included.
pub proof fn lemma_phase_add(c1: TLWE, c2: TLWE, r: TLWE, s: Seq<i64>)
    requires
        c1.a.coef@.len() == c2.a.coef@.len() == r.a.coef@.len() == s.len(),
        forall|i: int|
            0 <= i < s.len() ==> #[trigger] r.a.coef@[i].fix == tor(
                c1.a.coef@[i].fix + c2.a.coef@[i].fix,
            ),
        r.b.fix == tor(c1.b.fix + c2.b.fix),
    ensures
        phase(r, s) == tor(phase(c1, s) + phase(c2, s)),
{
    let d1 = dot(c1.a.coef@, s);
    let d2 = dot(c2.a.coef@, s);
    let dr = dot(r.a.coef@, s);
    lemma_dot_add(c1.a.coef@, c2.a.coef@, r.a.coef@, s);
    lemma_tor_sub(c1.b.fix + c2.b.fix, dr);
    lemma_tor_sub(c1.b.fix + c2.b.fix, d1 + d2);
    lemma_tor_add(c1.b.fix - d1, c2.b.fix - d2);
    assert(c1.b.fix + c2.b.fix - (d1 + d2) == (c1.b.fix - d1) + (c2.b.fix - d2));
}

/// Subtracting `d` times a vector coefficient-wise takes `d` times its inner
/// product off the inner product, on the torus.
pub proof fn lemma_dot_sub_scaled(x: Seq<Torus01>, y: Seq<Torus01>, r: Seq<Torus01>, s: Seq<i64>, d: int)
    requires
        x.len() == y.len() == r.len() == s.len(),
        forall|i: int| 0 <= i < r.len() ==> #[trigger] r[i].fix == tor(x[i].fix - tor(y[i].fix * d)),
    ensures
        tor(dot(r, s)) == tor(dot(x, s) - d * dot(y, s)),
    decreases r.len(),
{
    if r.len() > 0 {
        let n = r.len() - 1;
        lemma_dot_sub_scaled(x.drop_last(), y.drop_last(), r.drop_last(), s.drop_last(), d);
        let dx = dot(x.drop_last(), s.drop_last());
        let dy = dot(y.drop_last(), s.drop_last());
        let dr = dot(r.drop_last(), s.drop_last());
        let xn = x[n].fix as int;
        let yn = y[n].fix as int;
        let sv = s[n] as int;
        let rn = r[n].fix as int;
        let z = xn - yn * d;
        assert(rn == tor(xn - tor(yn * d)));
        lemma_tor_sub(xn, yn * d);
        lemma_tor_mul(sv, z);
        assert(rn * sv == sv * tor(z)) by (nonlinear_arith)
            requires
                rn == tor(z),
        ;
        lemma_tor_add(dr, rn * sv);
        lemma_tor_add(dx - d * dy, sv * z);
        assert(dx - d * dy + sv * z == (dx + xn * sv) - d * (dy + yn * sv)) by (nonlinear_arith)
            requires
                z == xn - yn * d,
        ;
    }
}

/// One step of key switching shifts the phase by the digit times the phase
/// of the key-switching entry: subtracting `d * k` from `acc` subtracts
/// `d * phase(k)` from its phase.
pub proof fn lemma_key_switch_step(acc: TLWE, k: TLWE, r: TLWE, s: Seq<i64>, d: int)
    requires
        acc.a.coef@.len() == k.a.coef@.len() == r.a.coef@.len() == s.len(),
        forall|i: int|
            0 <= i < s.len() ==> #[trigger] r.a.coef@[i].fix == tor(
                acc.a.coef@[i].fix - tor(k.a.coef@[i].fix * d),
            ),
        r.b.fix == tor(acc.b.fix - tor(k.b.fix * d)),
    ensures
        phase(r, s) == tor(phase(acc, s) - d * phase(k, s)),
{
    let dx = dot(acc.a.coef@, s);
    let dy = dot(k.a.coef@, s);
    let dr = dot(r.a.coef@, s);
    lemma_dot_sub_scaled(acc.a.coef@, k.a.coef@, r.a.coef@, s, d);
    lemma_tor_sub(acc.b.fix as int, k.b.fix * d);
    lemma_tor_sub(acc.b.fix - k.b.fix * d, dr);
    lemma_tor_sub(acc.b.fix - k.b.fix * d, dx - d * dy);
    lemma_tor_mul(d, k.b.fix - dy);
    lemma_tor_sub(acc.b.fix - dx, d * tor(k.b.fix - dy));
    assert(acc.b.fix - k.b.fix * d - (dx - d * dy) == (acc.b.fix - dx) - d * (k.b.fix - dy)) by (nonlinear_arith);
    lemma_tor_sub(acc.b.fix - dx, d * (k.b.fix - dy));
}

} // verus!
