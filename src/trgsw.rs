use crate::torus::{lemma_tor_add, lemma_tor_bound, lemma_tor_small, nc_coef, nc_sum, tor, Torus01, Torus01Poly};
use crate::tlwe::is_bit_key;
use crate::trlwe::{add_seq, sub_seq, TRLWE};
use vstd::prelude::*;

verus! {

/// Gadget parameters that a decomposition can use: `l` levels of `bgbit`
/// bits each, within 31 bits in all.
pub open spec fn valid_gadget(l: int, bgbit: int) -> bool {
    1 <= l && 1 <= bgbit && l * bgbit <= 31
}

/// Half the base at level `j` (0-based): `Bg/2 * Bg^-(j+1)` in fixed point.
pub open spec fn half_at(j: int, bgbit: int) -> int {
    ((1u32 << ((bgbit - 1) as u32)) << ((32 - (j + 1) * bgbit) as u32)) as int
}

/// The offset added before the digits are read: half of every level, so that
/// digits come out balanced, and half of the last kept bit, so that the value
/// is rounded. `i` counts the levels summed so far.
pub open spec fn gadget_offset(l: int, bgbit: int, i: int) -> int
    decreases i,
{
    if i <= 0 {
        (1u32 << ((31 - l * bgbit) as u32)) as int
    } else {
        tor(gadget_offset(l, bgbit, i - 1) + half_at(i - 1, bgbit))
    }
}

/// Signed digit `j` (0-based, most significant first) of the balanced base-`2^bgbit`
/// decomposition of the torus value `x` on `l` levels, in `[-Bg/2, Bg/2)`.
pub open spec fn digit(x: int, j: int, l: int, bgbit: int) -> int {
    let y = tor(x + gadget_offset(l, bgbit, l)) as u32;
    (((y >> ((32 - (j + 1) * bgbit) as u32)) & (((1u32 << (bgbit as u32)) as int) - 1) as u32) as int)
        - (1u32 << ((bgbit - 1) as u32)) as int
}

/// Digit `j` of every coefficient of `p`.
pub open spec fn digits_of(p: Seq<Torus01>, j: int, l: int, bgbit: int) -> Seq<i64> {
    Seq::new(p.len(), |k: int| digit(p[k].fix as int, j, l, bgbit) as i64)
}

/// The integer polynomial that multiplies row `j` of a TRGSW sample in the
/// external product with `(ca, cb)`: the digits of `ca` for the first `l`
/// rows, those of `cb` for the last `l`.
pub open spec fn row_digits(ca: Seq<Torus01>, cb: Seq<Torus01>, j: int, l: int, bgbit: int) -> Seq<i64> {
    if j < l {
        digits_of(ca, j, l, bgbit)
    } else {
        digits_of(cb, j - l, l, bgbit)
    }
}

/// Coefficient `k` of the external product, over the first `j` rows: on the
/// `a` side if `side_a`, else on the `b` side.
pub open spec fn ep_sum(
    rows: Seq<TRLWE>,
    ca: Seq<Torus01>,
    cb: Seq<Torus01>,
    l: int,
    bgbit: int,
    k: int,
    j: int,
    side_a: bool,
) -> int
    decreases j,
{
    if j <= 0 {
        0
    } else {
        let row = if side_a {
            rows[j - 1].a.coef@
        } else {
            rows[j - 1].b.coef@
        };
        ep_sum(rows, ca, cb, l, bgbit, k, j - 1, side_a) + nc_sum(
            row,
            row_digits(ca, cb, j - 1, l, bgbit),
            k,
            row.len() as int,
        )
    }
}

/// One side of the external product of the rows with `(ca, cb)`.
pub open spec fn ext_seq(
    rows: Seq<TRLWE>,
    ca: Seq<Torus01>,
    cb: Seq<Torus01>,
    l: int,
    bgbit: int,
    side_a: bool,
) -> Seq<Torus01> {
    Seq::new(ca.len(), |k: int| Torus01 { fix: tor(ep_sum(rows, ca, cb, l, bgbit, k, 2 * l, side_a)) as u32 })
}

/// One side of `cmux(z, o) = z + ext(o - z)`.
pub open spec fn cmux_seq(
    rows: Seq<TRLWE>,
    za: Seq<Torus01>,
    zb: Seq<Torus01>,
    oa: Seq<Torus01>,
    ob: Seq<Torus01>,
    l: int,
    bgbit: int,
    side_a: bool,
) -> Seq<Torus01> {
    let e = ext_seq(rows, sub_seq(oa, za), sub_seq(ob, zb), l, bgbit, side_a);
    if side_a {
        add_seq(za, e)
    } else {
        add_seq(zb, e)
    }
}

/// A TRGSW sample: `2l` TRLWE rows, the first `l` holding the bit times
/// `Bg^-(i+1)` on the `a` side, the last `l` on the `b` side.
#[derive(Debug, Clone)]
pub struct TRGSW {
    pub rows: Vec<TRLWE>,
    pub l: usize,
    pub bg: u32,
    pub bgbit: u32,
}

impl TRGSW {
    /// Rows of dimension `n` and gadget parameters that fit together.
    pub open spec fn wf(&self, n: int) -> bool {
        &&& valid_gadget(self.l as int, self.bgbit as int)
        &&& self.bg == 1u32 << self.bgbit
        &&& self.rows@.len() == 2 * self.l
        &&& forall|j: int|
            0 <= j < self.rows@.len() ==> (#[trigger] self.rows@[j]).a.coef@.len() == n
                && self.rows@[j].b.coef@.len() == n
    }
}

/// Half of each level summed into the rounding offset.
pub fn offset_of(l: usize, bgbit: u32) -> (r: u32)
    requires
        valid_gadget(l as int, bgbit as int),
    ensures
        r == gadget_offset(l as int, bgbit as int, l as int),
{
    proof {
        assert(l <= l * bgbit) by (nonlinear_arith)
            requires
                1 <= bgbit,
                1 <= l,
        ;
    }
    assert(bgbit <= l * bgbit) by (nonlinear_arith)
        requires
            1 <= bgbit,
            1 <= l,
    ;
    let lb: u32 = (l as u32) * bgbit;
    let mut acc: u32 = 1u32 << (31 - lb);
    let mut i: usize = 0;
    while i < l
        invariant
            valid_gadget(l as int, bgbit as int),
            l <= 31,
            bgbit <= 31,
            i <= l,
            acc == gadget_offset(l as int, bgbit as int, i as int),
        decreases l - i,
    {
        proof {
            assert((i + 1) * bgbit <= l * bgbit && 1 <= (i + 1) * bgbit) by (nonlinear_arith)
                requires
                    i < l,
                    1 <= bgbit,
            ;
            lemma_tor_bound(acc + half_at(i as int, bgbit as int));
        }
        let s: u32 = 32 - ((i as u32) + 1) * bgbit;
        let h: u32 = (1u32 << (bgbit - 1)) << s;
        acc = ((acc as u64 + h as u64) % 0x1_0000_0000u64) as u32;
        i += 1;
    }
    acc
}

/// Digit `j` of the torus value `x`, given the offset of the gadget.
pub fn gadget_digit(x: u32, j: usize, l: usize, bgbit: u32, off: u32) -> (r: i64)
    requires
        valid_gadget(l as int, bgbit as int),
        j < l,
        off == gadget_offset(l as int, bgbit as int, l as int),
    ensures
        r == digit(x as int, j as int, l as int, bgbit as int),
        -((1u32 << ((bgbit - 1) as u32)) as int) <= r < (1u32 << ((bgbit - 1) as u32)) as int,
{
    proof {
        assert(bgbit <= l * bgbit) by (nonlinear_arith)
            requires
                1 <= bgbit,
                1 <= l,
        ;
        assert((j + 1) * bgbit <= l * bgbit && 1 <= (j + 1) * bgbit) by (nonlinear_arith)
            requires
                j < l,
                1 <= bgbit,
        ;
        assert(j <= l * bgbit) by (nonlinear_arith)
            requires
                1 <= bgbit,
                j < l,
        ;
        lemma_tor_bound(x + off);
    }
    assert(1 <= bgbit <= 31 ==> (1u32 << bgbit) >= 1) by (bit_vector);
    let mask: u32 = (1u32 << bgbit) - 1;
    let half: u32 = 1u32 << (bgbit - 1);
    let s: u32 = 32 - ((j as u32) + 1) * bgbit;
    let y: u32 = ((x as u64 + off as u64) % 0x1_0000_0000u64) as u32;
    let v: u32 = (y >> s) & mask;
    assert(v <= mask) by (bit_vector)
        requires
            v == (y >> s) & mask,
    ;
    assert(1 <= bgbit <= 31 ==> ((1u32 << bgbit) - 1) as u32 == 2 * (1u32 << ((bgbit - 1) as u32)) - 1) by (bit_vector);
    v as i64 - half as i64
}

/// Digit `j` of every coefficient of `p`, given the offset of the gadget.
pub fn decompose(p: &Torus01Poly, j: usize, l: usize, bgbit: u32, off: u32) -> (r: Vec<i64>)
    requires
        valid_gadget(l as int, bgbit as int),
        j < l,
        off == gadget_offset(l as int, bgbit as int, l as int),
    ensures
        r@ == digits_of(p.coef@, j as int, l as int, bgbit as int),
{
    let mut out: Vec<i64> = Vec::new();
    let mut k: usize = 0;
    while k < p.coef.len()
        invariant
            valid_gadget(l as int, bgbit as int),
            j < l,
            off == gadget_offset(l as int, bgbit as int, l as int),
            k <= p.coef@.len(),
            out@.len() == k,
            forall|i: int|
                0 <= i < k ==> out@[i] == digit(p.coef@[i].fix as int, j as int, l as int, bgbit as int) as i64,
        decreases p.coef@.len() - k,
    {
        out.push(gadget_digit(p.coef[k].fix, j, l, bgbit, off));
        k += 1;
    }
    assert(out@ =~= digits_of(p.coef@, j as int, l as int, bgbit as int));
    out
}

/// The gadget weight of level `j` (0-based): `Bg^-(j+1)` in fixed point.
pub open spec fn gadget_at(j: int, bgbit: int) -> int {
    (1u32 << ((32 - (j + 1) * bgbit) as u32)) as int
}

/// `p` with `v` added to its constant coefficient.
pub open spec fn add_const(p: Seq<Torus01>, v: int) -> Seq<Torus01> {
    p.update(0, Torus01 { fix: tor(p[0].fix + v) as u32 })
}

/// A polynomial of `n` zero coefficients.
pub fn zero_poly(n: usize) -> (r: Torus01Poly)
    ensures
        r.coef@.len() == n,
        forall|k: int| 0 <= k < n ==> #[trigger] r.coef@[k].fix == 0,
{
    let mut v: Vec<Torus01> = Vec::new();
    let mut i: usize = 0;
    while i < n
        invariant
            i <= n,
            v@.len() == i,
            forall|k: int| 0 <= k < i ==> #[trigger] v@[k].fix == 0,
        decreases n - i,
    {
        v.push(Torus01::new_with_fix(0));
        i += 1;
    }
    Torus01Poly::new_with_torus(v)
}

impl TRGSW {
    /// The TRGSW sample of `bit` built on `2l` encryptions of zero: the bit
    /// times `Bg^-(i+1)` is added to the constant coefficient of the `a` side of
    /// row `i` and of the `b` side of row `l + i`.
    pub fn new_with_bin(l: usize, bg: u32, bgbit: u32, bit: u8, zeros: Vec<TRLWE>) -> (r: TRGSW)
        requires
            valid_gadget(l as int, bgbit as int),
            bg == 1u32 << bgbit,
            bit <= 1,
            zeros@.len() == 2 * l,
            zeros@[0].a.coef@.len() >= 1,
            forall|j: int|
                0 <= j < zeros@.len() ==> (#[trigger] zeros@[j]).a.coef@.len() == zeros@[0].a.coef@.len()
                    && zeros@[j].b.coef@.len() == zeros@[0].a.coef@.len(),
        ensures
            r.l == l,
            r.bg == bg,
            r.bgbit == bgbit,
            r.wf(zeros@[0].a.coef@.len() as int),
            forall|j: int|
                0 <= j < l ==> (#[trigger] r.rows@[j]).a.coef@ == add_const(
                    zeros@[j].a.coef@,
                    bit * gadget_at(j, bgbit as int),
                ) && r.rows@[j].b.coef@ == zeros@[j].b.coef@,
            forall|j: int|
                l <= j < 2 * l ==> (#[trigger] r.rows@[j]).a.coef@ == zeros@[j].a.coef@
                    && r.rows@[j].b.coef@ == add_const(
                    zeros@[j].b.coef@,
                    bit * gadget_at(j - l, bgbit as int),
                ),
    {
        proof {
            assert(l <= l * bgbit && bgbit <= l * bgbit) by (nonlinear_arith)
                requires
                    1 <= bgbit,
                    1 <= l,
            ;
        }
        let ghost n = zeros@[0].a.coef@.len();
        let mut rows: Vec<TRLWE> = Vec::new();
        let mut j: usize = 0;
        while j < 2 * l
            invariant
                valid_gadget(l as int, bgbit as int),
                l <= 31,
                bgbit <= 31,
                bit <= 1,
                zeros@.len() == 2 * l,
                n == zeros@[0].a.coef@.len(),
                n >= 1,
                forall|i: int|
                    0 <= i < zeros@.len() ==> (#[trigger] zeros@[i]).a.coef@.len() == n
                        && zeros@[i].b.coef@.len() == n,
                j <= 2 * l,
                rows@.len() == j,
                forall|i: int|
                    0 <= i < j ==> (#[trigger] rows@[i]).a.coef@.len() == n && rows@[i].b.coef@.len() == n,
                forall|i: int|
                    0 <= i < j && i < l ==> (#[trigger] rows@[i]).a.coef@ == add_const(
                        zeros@[i].a.coef@,
                        bit * gadget_at(i, bgbit as int),
                    ) && rows@[i].b.coef@ == zeros@[i].b.coef@,
                forall|i: int|
                    0 <= i < j && l <= i ==> (#[trigger] rows@[i]).a.coef@ == zeros@[i].a.coef@
                        && rows@[i].b.coef@ == add_const(
                        zeros@[i].b.coef@,
                        bit * gadget_at(i - l, bgbit as int),
                    ),
            decreases 2 * l - j,
        {
            let mut row = zeros[j].duplicate();
            let lvl: usize = if j < l {
                j
            } else {
                j - l
            };
            proof {
                assert((lvl + 1) * bgbit <= l * bgbit && 1 <= (lvl + 1) * bgbit) by (nonlinear_arith)
                    requires
                        lvl < l,
                        1 <= bgbit,
                ;
            }
            let g: u32 = 1u32 << (32 - ((lvl as u32) + 1) * bgbit);
            let w = Torus01::new_with_fix(g).mul(bit as i64);
            proof {
                lemma_tor_bound(g as int * bit);
                lemma_tor_small(g as int * bit);
                assert(g as int * bit == bit * g as int) by (nonlinear_arith);
            }
            if j < l {
                let v = row.a.coef[0].add(w);
                proof {
                    lemma_tor_add(row.a.coef@[0].fix as int, bit * g as int);
                    lemma_tor_small(row.a.coef@[0].fix as int);
                }
                row.a.coef.set(0, v);
            } else {
                let v = row.b.coef[0].add(w);
                proof {
                    lemma_tor_add(row.b.coef@[0].fix as int, bit * g as int);
                    lemma_tor_small(row.b.coef@[0].fix as int);
                }
                row.b.coef.set(0, v);
            }
            proof {
                if j < l {
                    assert(row.a.coef@ =~= add_const(zeros@[j as int].a.coef@, bit * gadget_at(j as int, bgbit as int)));
                } else {
                    assert(row.b.coef@ =~= add_const(
                        zeros@[j as int].b.coef@,
                        bit * gadget_at(j - l, bgbit as int),
                    ));
                }
            }
            rows.push(row);
            j += 1;
        }
        TRGSW { rows, l, bg, bgbit }
    }

    /// The external product with a TRLWE sample: the sum, over the rows, of
    /// each row times the matching digit polynomial of the sample.
    pub fn external_product(&self, c: &TRLWE) -> (r: TRLWE)
        requires
            self.wf(c.a.coef@.len() as int),
            c.b.coef@.len() == c.a.coef@.len(),
        ensures
            r.a.coef@ == ext_seq(self.rows@, c.a.coef@, c.b.coef@, self.l as int, self.bgbit as int, true),
            r.b.coef@ == ext_seq(self.rows@, c.a.coef@, c.b.coef@, self.l as int, self.bgbit as int, false),
    {
        let n = c.a.coef.len();
        let l = self.l;
        let bgbit = self.bgbit;
        let off = offset_of(l, bgbit);
        let mut acc_a = zero_poly(n);
        let mut acc_b = zero_poly(n);
        let ghost rows = self.rows@;
        let ghost ca = c.a.coef@;
        let ghost cb = c.b.coef@;
        proof {
            assert forall|k: int| 0 <= k < n implies acc_a.coef@[k].fix == tor(
                ep_sum(rows, ca, cb, l as int, bgbit as int, k, 0, true),
            ) && acc_b.coef@[k].fix == tor(ep_sum(rows, ca, cb, l as int, bgbit as int, k, 0, false)) by {
                lemma_tor_small(0);
            }
        }
        proof {
            assert(l <= l * bgbit) by (nonlinear_arith)
                requires
                    1 <= bgbit,
                    1 <= l,
            ;
        }
        let l2: usize = 2 * l;
        let mut j: usize = 0;
        while j < l2
            invariant
                self.wf(n as int),
                n == ca.len() == cb.len(),
                rows == self.rows@,
                ca == c.a.coef@,
                cb == c.b.coef@,
                l == self.l,
                bgbit == self.bgbit,
                off == gadget_offset(l as int, bgbit as int, l as int),
                l2 == 2 * l,
                j <= 2 * l,
                acc_a.coef@.len() == n,
                acc_b.coef@.len() == n,
                forall|k: int|
                    0 <= k < n ==> acc_a.coef@[k].fix == tor(
                        ep_sum(rows, ca, cb, l as int, bgbit as int, k, j as int, true),
                    ),
                forall|k: int|
                    0 <= k < n ==> acc_b.coef@[k].fix == tor(
                        ep_sum(rows, ca, cb, l as int, bgbit as int, k, j as int, false),
                    ),
            decreases l2 - j,
        {
            let dig = if j < l {
                decompose(&c.a, j, l, bgbit, off)
            } else {
                decompose(&c.b, j - l, l, bgbit, off)
            };
            assert(dig@ == row_digits(ca, cb, j as int, l as int, bgbit as int));
            let row = &self.rows[j];
            assert(row.a.coef@.len() == n && row.b.coef@.len() == n);
            let pa = row.a.mul(&dig);
            let pb = row.b.mul(&dig);
            let ghost old_a = acc_a;
            let ghost old_b = acc_b;
            acc_a = acc_a.add(&pa);
            acc_b = acc_b.add(&pb);
            proof {
                assert forall|k: int| 0 <= k < n implies acc_a.coef@[k].fix == tor(
                    ep_sum(rows, ca, cb, l as int, bgbit as int, k, j + 1, true),
                ) && acc_b.coef@[k].fix == tor(
                    ep_sum(rows, ca, cb, l as int, bgbit as int, k, j + 1, false),
                ) by {
                    assert(rows[j as int] == *row);
                    assert(acc_a.coef@[k].fix == tor(old_a.coef@[k].fix + pa.coef@[k].fix));
                    assert(acc_b.coef@[k].fix == tor(old_b.coef@[k].fix + pb.coef@[k].fix));
                    assert(pa.coef@[k].fix == nc_coef(row.a.coef@, dig@, k));
                    assert(row.a.coef@.len() == n);
                    assert(pa.coef@[k].fix == tor(nc_sum(row.a.coef@, dig@, k, n as int)));
                    assert(pb.coef@[k].fix == nc_coef(row.b.coef@, dig@, k));
                    assert(row.b.coef@.len() == n);
                    assert(pb.coef@[k].fix == tor(nc_sum(row.b.coef@, dig@, k, n as int)));
                    assert(ep_sum(rows, ca, cb, l as int, bgbit as int, k, j + 1, true) == ep_sum(
                        rows, ca, cb, l as int, bgbit as int, k, j as int, true,
                    ) + nc_sum(row.a.coef@, dig@, k, n as int));
                    assert(ep_sum(rows, ca, cb, l as int, bgbit as int, k, j + 1, false) == ep_sum(
                        rows, ca, cb, l as int, bgbit as int, k, j as int, false,
                    ) + nc_sum(row.b.coef@, dig@, k, n as int));
                    lemma_tor_add(
                        ep_sum(rows, ca, cb, l as int, bgbit as int, k, j as int, true),
                        nc_sum(row.a.coef@, dig@, k, n as int),
                    );
                    lemma_tor_add(
                        ep_sum(rows, ca, cb, l as int, bgbit as int, k, j as int, false),
                        nc_sum(row.b.coef@, dig@, k, n as int),
                    );
                }
            }
            j += 1;
        }
        let r = TRLWE { a: acc_a, b: acc_b };
        assert(r.a.coef@ =~= ext_seq(rows, ca, cb, l as int, bgbit as int, true));
        assert(r.b.coef@ =~= ext_seq(rows, ca, cb, l as int, bgbit as int, false));
        r
    }

    /// The homomorphic selector: `z + ext(o - z)`, which holds `o` where the
    /// sample encrypts 1 and `z` where it encrypts 0.
    pub fn cmux(&self, z: &TRLWE, o: &TRLWE) -> (r: TRLWE)
        requires
            self.wf(z.a.coef@.len() as int),
            z.b.coef@.len() == z.a.coef@.len(),
            o.a.coef@.len() == z.a.coef@.len(),
            o.b.coef@.len() == z.a.coef@.len(),
        ensures
            r.a.coef@ == cmux_seq(
                self.rows@,
                z.a.coef@,
                z.b.coef@,
                o.a.coef@,
                o.b.coef@,
                self.l as int,
                self.bgbit as int,
                true,
            ),
            r.b.coef@ == cmux_seq(
                self.rows@,
                z.a.coef@,
                z.b.coef@,
                o.a.coef@,
                o.b.coef@,
                self.l as int,
                self.bgbit as int,
                false,
            ),
    {
        let d = o.sub(z);
        let e = self.external_product(&d);
        z.add(&e)
    }
}

/// The body of an encryption of zero with mask `a` and noise `e` under `big_s`.
pub open spec fn zero_enc(a: Seq<Torus01>, big_s: Seq<i64>, e: Seq<Torus01>) -> Seq<Torus01> {
    Seq::new(a.len(), |k: int| Torus01 { fix: tor(nc_coef(a, big_s, k) + e[k].fix) as u32 })
}

/// `g` is the TRGSW sample of `bit` under `big_s` whose row `j` carries the
/// noise `noise[base + j]`: row `j < l` is an encryption of zero with
/// `bit * Bg^-(j+1)` added to its mask's constant coefficient, row `l + j`
/// one with it added to its body's.
pub open spec fn encrypts_bit(g: TRGSW, bit: int, big_s: Seq<i64>, noise: Seq<Torus01Poly>, base: int) -> bool {
    &&& forall|j: int|
        0 <= j < g.l ==> {
            let a0 = add_const((#[trigger] g.rows@[j]).a.coef@, -bit * gadget_at(j, g.bgbit as int));
            &&& g.rows@[j].a.coef@ == add_const(a0, bit * gadget_at(j, g.bgbit as int))
            &&& g.rows@[j].b.coef@ == zero_enc(a0, big_s, noise[base + j].coef@)
        }
    &&& forall|j: int|
        g.l <= j < 2 * g.l ==> (#[trigger] g.rows@[j]).b.coef@ == add_const(
            zero_enc(g.rows@[j].a.coef@, big_s, noise[base + j].coef@),
            bit * gadget_at(j - g.l, g.bgbit as int),
        )
}

proof fn lemma_add_const_undo(p: Seq<Torus01>, v: int)
    requires
        p.len() >= 1,
    ensures
        add_const(add_const(p, v), -v) == p,
{
    let q = add_const(p, v);
    lemma_tor_bound(p[0].fix + v);
    lemma_tor_add(p[0].fix + v, -v);
    lemma_tor_small(p[0].fix as int);
    lemma_tor_small(tor(p[0].fix + v));
    assert(tor(q[0].fix - v) == tor(tor(p[0].fix + v) + -v));
    assert(add_const(q, -v) =~= p);
}

/// The bootstrapping key: for each bit of the TLWE key `s`, a TRGSW sample of
/// that bit under the TRLWE key `big_s`, its `2l` rows fresh encryptions of
/// zero with noise `noise[i * 2l + j]`.
pub fn gen_bootstrapping_key(
    s: &Vec<i64>,
    big_s: &Vec<i64>,
    l: usize,
    bg: u32,
    bgbit: u32,
    noise: &Vec<Torus01Poly>,
) -> (r: Vec<TRGSW>)
    requires
        is_bit_key(s@),
        valid_gadget(l as int, bgbit as int),
        bg == 1u32 << bgbit,
        big_s@.len() >= 1,
        noise@.len() == s@.len() * (2 * l),
        forall|q: int| 0 <= q < noise@.len() ==> (#[trigger] noise@[q]).coef@.len() == big_s@.len(),
    ensures
        r@.len() == s@.len(),
        forall|i: int|
            0 <= i < r@.len() ==> (#[trigger] r@[i]).wf(big_s@.len() as int) && r@[i].l == l
                && r@[i].bgbit == bgbit && encrypts_bit(r@[i], s@[i] as int, big_s@, noise@, i * (2 * l)),
{
    proof {
        assert(l <= l * bgbit) by (nonlinear_arith)
            requires
                1 <= bgbit,
                1 <= l,
        ;
    }
    let n = s.len();
    let big_n = big_s.len();
    let l2: usize = 2 * l;
    let total = noise.len();
    let mut out: Vec<TRGSW> = Vec::new();
    let mut i: usize = 0;
    while i < n
        invariant
            is_bit_key(s@),
            valid_gadget(l as int, bgbit as int),
            bg == 1u32 << bgbit,
            n == s@.len(),
            big_n == big_s@.len() >= 1,
            l2 == 2 * l,
            noise@.len() == n * l2,
            total == noise@.len(),
            forall|q: int| 0 <= q < noise@.len() ==> (#[trigger] noise@[q]).coef@.len() == big_n,
            i <= n,
            out@.len() == i,
            forall|p: int|
                0 <= p < i ==> (#[trigger] out@[p]).wf(big_n as int) && out@[p].l == l
                    && out@[p].bgbit == bgbit && encrypts_bit(out@[p], s@[p] as int, big_s@, noise@, p * l2),
        decreases n - i,
    {
        let mut zeros: Vec<TRLWE> = Vec::new();
        let mut j: usize = 0;
        while j < l2
            invariant
                n == s@.len(),
                big_n == big_s@.len() >= 1,
                noise@.len() == n * l2,
                total == noise@.len(),
                forall|q: int| 0 <= q < noise@.len() ==> (#[trigger] noise@[q]).coef@.len() == big_n,
                i < n,
                j <= l2,
                zeros@.len() == j,
                forall|p: int|
                    0 <= p < j ==> (#[trigger] zeros@[p]).a.coef@.len() == big_n
                        && zeros@[p].b.coef@.len() == big_n
                        && zeros@[p].b.coef@ == zero_enc(zeros@[p].a.coef@, big_s@, noise@[i * l2 + p].coef@),
            decreases l2 - j,
        {
            proof {
                assert(i * l2 + j < n * l2 && 0 <= i * l2) by (nonlinear_arith)
                    requires
                        i < n,
                        j < l2,
                ;
                assert(total == noise@.len());
            }
            let z = zero_poly(big_n);
            let e = &noise[i * l2 + j];
            let c = TRLWE::encrypt_torus(&z, big_s, e);
            proof {
                assert forall|k: int| 0 <= k < big_n implies c.b.coef@[k] == zero_enc(
                    c.a.coef@,
                    big_s@,
                    e.coef@,
                )[k] by {
                    assert(z.coef@[k].fix == 0);
                    assert(c.b.coef@[k].fix == tor(nc_coef(c.a.coef@, big_s@, k) + z.coef@[k].fix + e.coef@[k].fix));
                    lemma_tor_bound(nc_coef(c.a.coef@, big_s@, k) + e.coef@[k].fix);
                }
                assert(c.b.coef@ =~= zero_enc(c.a.coef@, big_s@, e.coef@));
            }
            zeros.push(c);
            j += 1;
        }
        let bit: u8 = if s[i] == 1 {
            1
        } else {
            0
        };
        let ghost zs = zeros@;
        let g = TRGSW::new_with_bin(l, bg, bgbit, bit, zeros);
        proof {
            assert(bit as int == s@[i as int]);
            assert forall|j: int| 0 <= j < l implies {
                let a0 = add_const((#[trigger] g.rows@[j]).a.coef@, -bit * gadget_at(j, bgbit as int));
                &&& g.rows@[j].a.coef@ == add_const(a0, bit * gadget_at(j, bgbit as int))
                &&& g.rows@[j].b.coef@ == zero_enc(a0, big_s@, noise@[i * l2 + j].coef@)
            } by {
                lemma_add_const_undo(zs[j].a.coef@, bit * gadget_at(j, bgbit as int));
                assert(-(bit * gadget_at(j, bgbit as int)) == -bit * gadget_at(j, bgbit as int));
            }
            assert(encrypts_bit(g, s@[i as int] as int, big_s@, noise@, i * l2));
        }
        out.push(g);
        i += 1;
    }
    out
}

} // verus!
