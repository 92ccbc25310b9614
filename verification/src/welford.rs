//! The online mean/variance accumulator.
//!
//! [`Welford`] follows Welford's single-pass update, with weights treated
//! as frequencies in West's manner, and the two-group parallel combination
//! for [`Welford::merge`]. The executable state is a reduced [`Ratio`]
//! mean and sum of weighted squared deviations (`msq`) plus a `u64`
//! cumulative weight; its contract ties every update to the exact
//! rational-number recurrence, stated by [`model_mean2`], [`model_msq2`],
//! [`model_merge_mean`] and [`model_merge_msq`].

use crate::rational::Frac;
use crate::rational::Ratio;
use crate::rational::add_raw;
use crate::rational::add_ratio;
use crate::rational::divide_raw;
use crate::rational::divide_ratio;
use crate::rational::fits;
use crate::rational::frac_eq;
use crate::rational::frac_wf;
use crate::rational::int_frac;
use crate::rational::lemma_add_cong;
use crate::rational::lemma_divide_cong;
use crate::rational::lemma_frac_eq_trans;
use crate::rational::lemma_mul_cong;
use crate::rational::lemma_norm;
use crate::rational::lemma_raw_wf;
use crate::rational::lemma_add_swap;
use crate::rational::lemma_scale_cong;
use crate::rational::lemma_sub_cong;
use crate::rational::mul_raw;
use crate::rational::mul_ratio;
use crate::rational::norm;
use crate::rational::scale_raw;
use crate::rational::scale_ratio;
use crate::rational::sub_raw;
use crate::rational::sub_ratio;
use vstd::prelude::*;

verus! {

/// The abstract state of an accumulator: cumulative weight, running mean
/// (absent until a sample arrives) and running sum of weighted squared
/// deviations, as mathematical fractions.
pub struct Stats {
    pub total: int,
    pub mean: Option<Frac>,
    pub msq: Frac,
}

/// The mean to run the update against: the stored mean, or the incoming
/// value itself when no sample has been seen (the first sample seeds the
/// mean).
pub open spec fn seed_mean(s: Stats, v: Frac) -> Frac {
    match s.mean {
        Some(m) => m,
        None => v,
    }
}

/// The stored mean of a non-empty accumulator.
pub open spec fn stats_mean(s: Stats) -> Frac {
    match s.mean {
        Some(m) => m,
        None => int_frac(0),
    }
}

/// The exact new mean after pushing `(v, w)` against mean `mean1`, where
/// `total1` is the cumulative weight including `w`:
/// `mean1 + (v - mean1) * w / total1`.
pub open spec fn model_mean2(mean1: Frac, v: Frac, w: int, total1: int) -> Frac {
    add_raw(mean1, divide_raw(scale_raw(sub_raw(v, mean1), w), total1))
}

/// The exact new sum of weighted squared deviations after pushing
/// `(v, w)`: `msq + (v - mean1) * w * (v - mean2)`, with `mean2` the
/// already-updated mean (the order Welford's recurrence requires).
pub open spec fn model_msq2(mean1: Frac, msq: Frac, v: Frac, w: int, total1: int) -> Frac {
    add_raw(
        msq,
        mul_raw(scale_raw(sub_raw(v, mean1), w), sub_raw(v, model_mean2(mean1, v, w, total1))),
    )
}

/// The exact merged mean of two non-empty groups:
/// `ma + (mb - ma) * tb / (ta + tb)`.
pub open spec fn model_merge_mean(ma: Frac, mb: Frac, ta: int, tb: int) -> Frac {
    add_raw(ma, divide_raw(scale_raw(sub_raw(mb, ma), tb), ta + tb))
}

/// The exact merged sum of weighted squared deviations of two non-empty
/// groups: `qa + qb + (mb - ma) * ta * ((mb - ma) * tb / (ta + tb))`.
pub open spec fn model_merge_msq(ma: Frac, qa: Frac, mb: Frac, qb: Frac, ta: int, tb: int) -> Frac {
    add_raw(
        qa,
        add_raw(
            qb,
            mul_raw(
                scale_raw(sub_raw(mb, ma), ta),
                divide_raw(scale_raw(sub_raw(mb, ma), tb), ta + tb),
            ),
        ),
    )
}

/// The reduced representation computed for `v - mean1`.
pub open spec fn p_delta(mean1: Frac, v: Frac) -> Frac {
    norm(sub_raw(v, mean1))
}

/// The reduced representation computed for `(v - mean1) * w`.
pub open spec fn p_wd(mean1: Frac, v: Frac, w: int) -> Frac {
    norm(scale_raw(p_delta(mean1, v), w))
}

/// The reduced representation computed for the mean correction.
pub open spec fn p_corr(mean1: Frac, v: Frac, w: int, total1: int) -> Frac {
    norm(divide_raw(p_wd(mean1, v, w), total1))
}

/// The reduced representation computed for the updated mean.
pub open spec fn p_mean2(mean1: Frac, v: Frac, w: int, total1: int) -> Frac {
    norm(add_raw(mean1, p_corr(mean1, v, w, total1)))
}

/// The reduced representation computed for `v - mean2`.
pub open spec fn p_delta2(mean1: Frac, v: Frac, w: int, total1: int) -> Frac {
    norm(sub_raw(v, p_mean2(mean1, v, w, total1)))
}

/// The reduced representation computed for the `msq` increment.
pub open spec fn p_term(mean1: Frac, v: Frac, w: int, total1: int) -> Frac {
    norm(mul_raw(p_wd(mean1, v, w), p_delta2(mean1, v, w, total1)))
}

/// The reduced representation computed for the updated `msq`.
pub open spec fn p_msq2(mean1: Frac, msq: Frac, v: Frac, w: int, total1: int) -> Frac {
    norm(add_raw(msq, p_term(mean1, v, w, total1)))
}

/// Every reduced intermediate of the push update fits the `i64`
/// representation.
pub open spec fn push_ok(mean1: Frac, msq: Frac, v: Frac, w: int, total1: int) -> bool {
    &&& fits(p_delta(mean1, v))
    &&& fits(p_wd(mean1, v, w))
    &&& fits(p_corr(mean1, v, w, total1))
    &&& fits(p_mean2(mean1, v, w, total1))
    &&& fits(p_delta2(mean1, v, w, total1))
    &&& fits(p_term(mean1, v, w, total1))
    &&& fits(p_msq2(mean1, msq, v, w, total1))
}

/// `push_weighted` succeeds exactly here: the new cumulative weight is
/// positive and fits a `u64`, and every reduced intermediate fits.
pub open spec fn push_accepts(s: Stats, v: Frac, w: int) -> bool {
    &&& s.total + w <= u64::MAX as int
    &&& s.total + w >= 1
    &&& push_ok(seed_mean(s, v), s.msq, v, w, s.total + w)
}

/// The reduced intermediates computed by the push update denote exactly
/// the values of the mathematical recurrence.
pub proof fn lemma_push_value(mean1: Frac, msq: Frac, v: Frac, w: int, total1: int)
    requires
        frac_wf(mean1),
        frac_wf(msq),
        frac_wf(v),
        total1 >= 1,
    ensures
        frac_wf(p_mean2(mean1, v, w, total1)),
        frac_wf(p_msq2(mean1, msq, v, w, total1)),
        frac_eq(p_mean2(mean1, v, w, total1), model_mean2(mean1, v, w, total1)),
        frac_eq(p_msq2(mean1, msq, v, w, total1), model_msq2(mean1, msq, v, w, total1)),
{
    let dm = sub_raw(v, mean1);
    let d1 = p_delta(mean1, v);
    lemma_raw_wf(v, mean1, w, total1);
    lemma_norm(dm);
    let wdm = scale_raw(dm, w);
    let wd1 = p_wd(mean1, v, w);
    lemma_scale_cong(d1, dm, w);
    lemma_norm(scale_raw(d1, w));
    lemma_frac_eq_trans(wd1, scale_raw(d1, w), wdm);
    let corrm = divide_raw(wdm, total1);
    let corr1 = p_corr(mean1, v, w, total1);
    lemma_divide_cong(wd1, wdm, total1);
    lemma_raw_wf(wd1, wd1, w, total1);
    lemma_norm(divide_raw(wd1, total1));
    lemma_frac_eq_trans(corr1, divide_raw(wd1, total1), corrm);
    let mean2m = model_mean2(mean1, v, w, total1);
    let mean2 = p_mean2(mean1, v, w, total1);
    lemma_raw_wf(wdm, wdm, w, total1);
    lemma_add_cong(mean1, mean1, corr1, corrm);
    lemma_raw_wf(mean1, corr1, w, total1);
    lemma_norm(add_raw(mean1, corr1));
    lemma_raw_wf(mean1, corrm, w, total1);
    lemma_frac_eq_trans(mean2, add_raw(mean1, corr1), mean2m);
    let delta2m = sub_raw(v, mean2m);
    let delta2 = p_delta2(mean1, v, w, total1);
    lemma_sub_cong(v, v, mean2, mean2m);
    lemma_raw_wf(v, mean2, w, total1);
    lemma_norm(sub_raw(v, mean2));
    lemma_raw_wf(v, mean2m, w, total1);
    lemma_frac_eq_trans(delta2, sub_raw(v, mean2), delta2m);
    let termm = mul_raw(wdm, delta2m);
    let term = p_term(mean1, v, w, total1);
    lemma_mul_cong(wd1, wdm, delta2, delta2m);
    lemma_raw_wf(wd1, delta2, w, total1);
    lemma_norm(mul_raw(wd1, delta2));
    lemma_raw_wf(wdm, delta2m, w, total1);
    lemma_frac_eq_trans(term, mul_raw(wd1, delta2), termm);
    let msq2m = model_msq2(mean1, msq, v, w, total1);
    let msq2 = p_msq2(mean1, msq, v, w, total1);
    lemma_add_cong(msq, msq, term, termm);
    lemma_raw_wf(msq, term, w, total1);
    lemma_norm(add_raw(msq, term));
    lemma_raw_wf(msq, termm, w, total1);
    lemma_frac_eq_trans(msq2, add_raw(msq, term), msq2m);
}

/// The reduced representation computed for the merge's `mb - ma`.
pub open spec fn m_delta(ma: Frac, mb: Frac) -> Frac {
    norm(sub_raw(mb, ma))
}

/// The reduced representation computed for `(mb - ma) * tb`.
pub open spec fn m_wd(ma: Frac, mb: Frac, tb: int) -> Frac {
    norm(scale_raw(m_delta(ma, mb), tb))
}

/// The reduced representation computed for the merge's mean correction.
pub open spec fn m_corr(ma: Frac, mb: Frac, ta: int, tb: int) -> Frac {
    norm(divide_raw(m_wd(ma, mb, tb), ta + tb))
}

/// The reduced representation computed for the merged mean.
pub open spec fn m_mean2(ma: Frac, mb: Frac, ta: int, tb: int) -> Frac {
    norm(add_raw(ma, m_corr(ma, mb, ta, tb)))
}

/// The reduced representation computed for `(mb - ma) * ta`.
pub open spec fn m_t1(ma: Frac, mb: Frac, ta: int) -> Frac {
    norm(scale_raw(m_delta(ma, mb), ta))
}

/// The reduced representation computed for `(mb - ma) * ta` times the
/// mean correction.
pub open spec fn m_t2(ma: Frac, mb: Frac, ta: int, tb: int) -> Frac {
    norm(mul_raw(m_t1(ma, mb, ta), m_corr(ma, mb, ta, tb)))
}

/// The reduced representation computed for `qb` plus that product.
pub open spec fn m_s(ma: Frac, mb: Frac, qb: Frac, ta: int, tb: int) -> Frac {
    norm(add_raw(qb, m_t2(ma, mb, ta, tb)))
}

/// The reduced representation computed for the merged `msq`.
pub open spec fn m_msq2(ma: Frac, qa: Frac, mb: Frac, qb: Frac, ta: int, tb: int) -> Frac {
    norm(add_raw(qa, m_s(ma, mb, qb, ta, tb)))
}

/// Every reduced intermediate of the merge fits the `i64` representation.
pub open spec fn merge_ok(ma: Frac, qa: Frac, mb: Frac, qb: Frac, ta: int, tb: int) -> bool {
    &&& fits(m_delta(ma, mb))
    &&& fits(m_wd(ma, mb, tb))
    &&& fits(m_corr(ma, mb, ta, tb))
    &&& fits(m_mean2(ma, mb, ta, tb))
    &&& fits(m_t1(ma, mb, ta))
    &&& fits(m_t2(ma, mb, ta, tb))
    &&& fits(m_s(ma, mb, qb, ta, tb))
    &&& fits(m_msq2(ma, qa, mb, qb, ta, tb))
}

/// `merge` succeeds exactly here: either group is empty (a copy, never a
/// failure), or the combined weight fits a `u64` and every reduced
/// intermediate fits.
pub open spec fn merge_accepts(a: Stats, b: Stats) -> bool {
    if b.total == 0 {
        true
    } else if a.total == 0 {
        true
    } else {
        &&& a.total + b.total <= u64::MAX as int
        &&& merge_ok(stats_mean(a), a.msq, stats_mean(b), b.msq, a.total, b.total)
    }
}

/// The reduced intermediates computed by the merge denote exactly the
/// values of the two-group combination formula.
pub proof fn lemma_merge_value(ma: Frac, qa: Frac, mb: Frac, qb: Frac, ta: int, tb: int)
    requires
        frac_wf(ma),
        frac_wf(qa),
        frac_wf(mb),
        frac_wf(qb),
        ta >= 1,
        tb >= 1,
    ensures
        frac_wf(m_mean2(ma, mb, ta, tb)),
        frac_wf(m_msq2(ma, qa, mb, qb, ta, tb)),
        frac_eq(m_mean2(ma, mb, ta, tb), model_merge_mean(ma, mb, ta, tb)),
        frac_eq(m_msq2(ma, qa, mb, qb, ta, tb), model_merge_msq(ma, qa, mb, qb, ta, tb)),
{
    let tt = ta + tb;
    let dm = sub_raw(mb, ma);
    let d1 = m_delta(ma, mb);
    lemma_raw_wf(mb, ma, ta, tt);
    lemma_norm(dm);
    let wdm = scale_raw(dm, tb);
    let wd1 = m_wd(ma, mb, tb);
    lemma_scale_cong(d1, dm, tb);
    lemma_norm(scale_raw(d1, tb));
    lemma_frac_eq_trans(wd1, scale_raw(d1, tb), wdm);
    let corrm = divide_raw(wdm, tt);
    let corr1 = m_corr(ma, mb, ta, tb);
    lemma_divide_cong(wd1, wdm, tt);
    lemma_raw_wf(wd1, wd1, ta, tt);
    lemma_norm(divide_raw(wd1, tt));
    lemma_raw_wf(wdm, wdm, ta, tt);
    lemma_frac_eq_trans(corr1, divide_raw(wd1, tt), corrm);
    let mean2m = model_merge_mean(ma, mb, ta, tb);
    let mean2 = m_mean2(ma, mb, ta, tb);
    lemma_add_cong(ma, ma, corr1, corrm);
    lemma_raw_wf(ma, corr1, ta, tt);
    lemma_norm(add_raw(ma, corr1));
    lemma_raw_wf(ma, corrm, ta, tt);
    lemma_frac_eq_trans(mean2, add_raw(ma, corr1), mean2m);
    let t1m = scale_raw(dm, ta);
    let t11 = m_t1(ma, mb, ta);
    lemma_scale_cong(d1, dm, ta);
    lemma_norm(scale_raw(d1, ta));
    lemma_frac_eq_trans(t11, scale_raw(d1, ta), t1m);
    let t2m = mul_raw(t1m, corrm);
    let t21 = m_t2(ma, mb, ta, tb);
    lemma_mul_cong(t11, t1m, corr1, corrm);
    lemma_raw_wf(t11, corr1, ta, tt);
    lemma_norm(mul_raw(t11, corr1));
    lemma_raw_wf(t1m, corrm, ta, tt);
    lemma_frac_eq_trans(t21, mul_raw(t11, corr1), t2m);
    let sm = add_raw(qb, t2m);
    let s1 = m_s(ma, mb, qb, ta, tb);
    lemma_add_cong(qb, qb, t21, t2m);
    lemma_raw_wf(qb, t21, ta, tt);
    lemma_norm(add_raw(qb, t21));
    lemma_raw_wf(qb, t2m, ta, tt);
    lemma_frac_eq_trans(s1, add_raw(qb, t21), sm);
    let msq2m = model_merge_msq(ma, qa, mb, qb, ta, tb);
    let msq2 = m_msq2(ma, qa, mb, qb, ta, tb);
    lemma_add_cong(qa, qa, s1, sm);
    lemma_raw_wf(qa, s1, ta, tt);
    lemma_norm(add_raw(qa, s1));
    lemma_raw_wf(qa, sm, ta, tt);
    lemma_frac_eq_trans(msq2, add_raw(qa, s1), msq2m);
}

/// An abstract state is well formed when the mean is present exactly for
/// a positive cumulative weight and all fractions have positive
/// denominators.
pub open spec fn stats_wf(s: Stats) -> bool {
    &&& match s.mean {
        Some(m) => frac_wf(m) && s.total >= 1,
        None => s.total == 0,
    }
    &&& frac_wf(s.msq)
}

/// Online calculator for the running mean and variance of a stream of
/// weighted rational samples, after Welford and West: it keeps only the
/// cumulative weight, the running mean and the running sum of weighted
/// squared deviations, and updates them in one pass. Two independently
/// filled calculators combine with [`Welford::merge`].
#[derive(Clone, Copy, Debug)]
pub struct Welford {
    mean: Option<Ratio>,
    total: u64,
    msq: Ratio,
}

impl View for Welford {
    type V = Stats;

    closed spec fn view(&self) -> Stats {
        Stats {
            total: self.total as int,
            mean: match self.mean {
                Some(m) => Some(m@),
                None => None,
            },
            msq: self.msq@,
        }
    }
}

impl Welford {
    /// The representation invariant: the mean is present exactly when
    /// samples have been seen, and the held ratios are well formed.
    pub closed spec fn wf(&self) -> bool {
        &&& match self.mean {
            Some(m) => m.wf() && self.total >= 1,
            None => self.total == 0,
        }
        &&& self.msq.wf()
    }

    /// Create a new *unweighted* calculator: no samples, zero weight,
    /// zero sum of squared deviations.
    pub fn new() -> (r: Welford)
        ensures
            r.wf(),
            stats_wf(r@),
            r@.total == 0,
            (r@.mean is None),
            r@.msq == int_frac(0),
    {
        Welford { mean: None, total: 0, msq: Ratio::from_int(0) }
    }

    /// Create a new calculator for explicitly weighted samples; the
    /// initial state is the same as [`Welford::new`], the weights come
    /// with each [`Welford::push_weighted`] call.
    pub fn with_weights() -> (r: Welford)
        ensures
            r.wf(),
            stats_wf(r@),
            r@.total == 0,
            (r@.mean is None),
            r@.msq == int_frac(0),
    {
        Welford { mean: None, total: 0, msq: Ratio::from_int(0) }
    }

    /// Add a sample with unit weight. Equivalent to
    /// `push_weighted(value, 1)`; see there for the contract.
    pub fn push(&mut self, value: Ratio) -> (ok: bool)
        requires
            old(self).wf(),
            value.wf(),
        ensures
            final(self).wf(),
            stats_wf(final(self)@),
            !ok ==> *final(self) == *old(self),
            ok <==> push_accepts(old(self)@, value@, 1),
            ok ==> final(self)@.total == old(self)@.total + 1,
            ok ==> (final(self)@.mean is Some),
            ok ==> stats_mean(final(self)@) == p_mean2(
                seed_mean(old(self)@, value@),
                value@,
                1,
                old(self)@.total + 1,
            ),
            ok ==> final(self)@.msq == p_msq2(
                seed_mean(old(self)@, value@),
                old(self)@.msq,
                value@,
                1,
                old(self)@.total + 1,
            ),
            ok ==> frac_eq(
                stats_mean(final(self)@),
                model_mean2(seed_mean(old(self)@, value@), value@, 1, old(self)@.total + 1),
            ),
            ok ==> frac_eq(
                final(self)@.msq,
                model_msq2(
                    seed_mean(old(self)@, value@),
                    old(self)@.msq,
                    value@,
                    1,
                    old(self)@.total + 1,
                ),
            ),
    {
        self.push_weighted(value, 1)
    }

    /// Add a sample with the given weight.
    ///
    /// On success the cumulative weight grows by `weight`, the mean
    /// becomes `mean + (value - mean) * weight / total'` and the sum of
    /// squared deviations grows by `(value - mean) * weight` times the
    /// distance of `value` from the *updated* mean — the exact
    /// Welford/West recurrence, with the first sample seeding the mean.
    /// The call fails, leaving the state untouched, exactly when the new
    /// cumulative weight would be zero or exceed `u64::MAX`, or some
    /// reduced intermediate fraction overflows `i64`.
    pub fn push_weighted(&mut self, value: Ratio, weight: u64) -> (ok: bool)
        requires
            old(self).wf(),
            value.wf(),
        ensures
            final(self).wf(),
            stats_wf(final(self)@),
            !ok ==> *final(self) == *old(self),
            ok <==> push_accepts(old(self)@, value@, weight as int),
            ok ==> final(self)@.total == old(self)@.total + weight,
            ok ==> (final(self)@.mean is Some),
            ok ==> stats_mean(final(self)@) == p_mean2(
                seed_mean(old(self)@, value@),
                value@,
                weight as int,
                old(self)@.total + weight,
            ),
            ok ==> final(self)@.msq == p_msq2(
                seed_mean(old(self)@, value@),
                old(self)@.msq,
                value@,
                weight as int,
                old(self)@.total + weight,
            ),
            ok ==> frac_eq(
                stats_mean(final(self)@),
                model_mean2(
                    seed_mean(old(self)@, value@),
                    value@,
                    weight as int,
                    old(self)@.total + weight,
                ),
            ),
            ok ==> frac_eq(
                final(self)@.msq,
                model_msq2(
                    seed_mean(old(self)@, value@),
                    old(self)@.msq,
                    value@,
                    weight as int,
                    old(self)@.total + weight,
                ),
            ),
    {
        if weight > u64::MAX - self.total {
            return false;
        }
        let total1 = self.total + weight;
        if total1 == 0 {
            return false;
        }
        let mean1 = match self.mean {
            Some(m) => m,
            None => value,
        };
        let delta = match sub_ratio(&value, &mean1) {
            Some(x) => x,
            None => {
                return false;
            },
        };
        let wd = match scale_ratio(&delta, weight) {
            Some(x) => x,
            None => {
                return false;
            },
        };
        let corr = match divide_ratio(&wd, total1) {
            Some(x) => x,
            None => {
                return false;
            },
        };
        let mean2 = match add_ratio(&mean1, &corr) {
            Some(x) => x,
            None => {
                return false;
            },
        };
        let delta2 = match sub_ratio(&value, &mean2) {
            Some(x) => x,
            None => {
                return false;
            },
        };
        let term = match mul_ratio(&wd, &delta2) {
            Some(x) => x,
            None => {
                return false;
            },
        };
        let msq2 = match add_ratio(&self.msq, &term) {
            Some(x) => x,
            None => {
                return false;
            },
        };
        proof {
            lemma_push_value(mean1@, self.msq@, value@, weight as int, total1 as int);
        }
        self.total = total1;
        self.mean = Some(mean2);
        self.msq = msq2;
        true
    }

    /// The mean of the samples so far, absent until a sample arrives.
    /// A pure read: the result is a function of the state alone.
    pub fn mean(&self) -> (r: Option<Ratio>)
        requires
            self.wf(),
        ensures
            (r is Some) <==> (self@.mean is Some),
            (r is Some) <==> self@.total >= 1,
            r matches Some(m) ==> m.wf() && self@.mean == Some(m@),
    {
        self.mean
    }

    /// The Bessel-corrected sample variance `msq / (total - 1)`, with
    /// weights as frequencies: present exactly when the cumulative weight
    /// exceeds one (and the reduced quotient fits). A pure read: the
    /// result is a function of the state alone.
    pub fn var(&self) -> (r: Option<Ratio>)
        requires
            self.wf(),
        ensures
            self@.total <= 1 ==> (r is None),
            (r is Some) <==> self@.total > 1 && fits(
                norm(divide_raw(self@.msq, self@.total - 1)),
            ),
            r matches Some(c) ==> c.wf() && c@ == norm(divide_raw(self@.msq, self@.total - 1))
                && frac_eq(c@, divide_raw(self@.msq, self@.total - 1)),
    {
        if self.total > 1 {
            let r = divide_ratio(&self.msq, self.total - 1);
            proof {
                lemma_raw_wf(self.msq@, self.msq@, 1, self@.total - 1);
                lemma_norm(divide_raw(self@.msq, self@.total - 1));
            }
            r
        } else {
            None
        }
    }

    /// Merge another calculator's accumulated state into this one, the
    /// two-group parallel combination: an empty `other` is a no-op, an
    /// empty `self` becomes a copy of `other`, and otherwise the total
    /// weights add, the mean moves by `(mb - ma) * tb / (ta + tb)` and
    /// the sums of squared deviations combine with the cross term
    /// `(mb - ma) * ta` times that correction. Fails, leaving the state
    /// untouched, exactly when the combined weight or some reduced
    /// intermediate fraction overflows.
    pub fn merge(&mut self, other: Welford) -> (ok: bool)
        requires
            old(self).wf(),
            other.wf(),
        ensures
            final(self).wf(),
            stats_wf(final(self)@),
            !ok ==> *final(self) == *old(self),
            ok <==> merge_accepts(old(self)@, other@),
            other@.total == 0 ==> ok && *final(self) == *old(self),
            other@.total >= 1 && old(self)@.total == 0 ==> ok && *final(self) == other,
            old(self)@.total >= 1 && other@.total >= 1 && ok ==> final(self)@.total == old(
                self,
            )@.total + other@.total,
            old(self)@.total >= 1 && other@.total >= 1 && ok ==> (final(self)@.mean is Some),
            old(self)@.total >= 1 && other@.total >= 1 && ok ==> stats_mean(final(self)@)
                == m_mean2(
                stats_mean(old(self)@),
                stats_mean(other@),
                old(self)@.total,
                other@.total,
            ),
            old(self)@.total >= 1 && other@.total >= 1 && ok ==> final(self)@.msq == m_msq2(
                stats_mean(old(self)@),
                old(self)@.msq,
                stats_mean(other@),
                other@.msq,
                old(self)@.total,
                other@.total,
            ),
            old(self)@.total >= 1 && other@.total >= 1 && ok ==> frac_eq(
                stats_mean(final(self)@),
                model_merge_mean(
                    stats_mean(old(self)@),
                    stats_mean(other@),
                    old(self)@.total,
                    other@.total,
                ),
            ),
            old(self)@.total >= 1 && other@.total >= 1 && ok ==> frac_eq(
                final(self)@.msq,
                model_merge_msq(
                    stats_mean(old(self)@),
                    old(self)@.msq,
                    stats_mean(other@),
                    other@.msq,
                    old(self)@.total,
                    other@.total,
                ),
            ),
    {
        if other.total == 0 {
            return true;
        }
        if self.total == 0 {
            *self = other;
            return true;
        }
        if other.total > u64::MAX - self.total {
            return false;
        }
        let total = self.total + other.total;
        let ma = self.mean.unwrap();
        let mb = other.mean.unwrap();
        let delta = match sub_ratio(&mb, &ma) {
            Some(x) => x,
            None => {
                return false;
            },
        };
        let wd = match scale_ratio(&delta, other.total) {
            Some(x) => x,
            None => {
                return false;
            },
        };
        let corr = match divide_ratio(&wd, total) {
            Some(x) => x,
            None => {
                return false;
            },
        };
        let mean2 = match add_ratio(&ma, &corr) {
            Some(x) => x,
            None => {
                return false;
            },
        };
        let t1 = match scale_ratio(&delta, self.total) {
            Some(x) => x,
            None => {
                return false;
            },
        };
        let t2 = match mul_ratio(&t1, &corr) {
            Some(x) => x,
            None => {
                return false;
            },
        };
        let s = match add_ratio(&other.msq, &t2) {
            Some(x) => x,
            None => {
                return false;
            },
        };
        let msq2 = match add_ratio(&self.msq, &s) {
            Some(x) => x,
            None => {
                return false;
            },
        };
        proof {
            lemma_merge_value(
                ma@,
                self.msq@,
                mb@,
                other.msq@,
                self.total as int,
                other.total as int,
            );
        }
        self.total = total;
        self.mean = Some(mean2);
        self.msq = msq2;
        true
    }
}

/// The first sample seeds the statistics: pushing `(v, w)` into an empty
/// accumulator (zero `msq` numerator) yields a mean that denotes exactly
/// `v` and a sum of squared deviations that still denotes zero.
pub proof fn lemma_first_push(v: Frac, msq0: Frac, w: int, total1: int)
    requires
        frac_wf(v),
        frac_wf(msq0),
        msq0.n == 0,
        total1 >= 1,
    ensures
        frac_eq(model_mean2(v, v, w, total1), v),
        model_msq2(v, msq0, v, w, total1).n == 0,
        frac_eq(model_msq2(v, msq0, v, w, total1), int_frac(0)),
{
    lemma_constant_push(v, msq0, v, w, total1);
}

/// A constant stream is exactly stable: pushing a sample that denotes the
/// current mean, with any weight, keeps the mean denoting that value and
/// keeps the sum of squared deviations at zero — so the variance stays
/// exactly zero, with no drift.
pub proof fn lemma_constant_push(mean1: Frac, msq: Frac, v: Frac, w: int, total1: int)
    requires
        frac_wf(mean1),
        frac_wf(msq),
        frac_wf(v),
        frac_eq(mean1, v),
        msq.n == 0,
        total1 >= 1,
    ensures
        frac_eq(model_mean2(mean1, v, w, total1), v),
        model_msq2(mean1, msq, v, w, total1).n == 0,
        frac_eq(model_msq2(mean1, msq, v, w, total1), int_frac(0)),
{
    let dm = sub_raw(v, mean1);
    assert(dm.n == 0);
    let wdm = scale_raw(dm, w);
    assert(wdm.n == 0) by (nonlinear_arith)
        requires
            wdm.n == dm.n * w,
            dm.n == 0,
    ;
    let corrm = divide_raw(wdm, total1);
    let mean2m = model_mean2(mean1, v, w, total1);
    let cd = corrm.d;
    assert((mean1.n * cd) * v.d == v.n * (mean1.d * cd)) by (nonlinear_arith)
        requires
            mean1.n * v.d == v.n * mean1.d,
    ;
    assert(frac_eq(mean2m, v));
    let delta2m = sub_raw(v, mean2m);
    assert(delta2m.n == 0);
    let termm = mul_raw(wdm, delta2m);
    assert(termm.n == 0) by (nonlinear_arith)
        requires
            termm.n == wdm.n * delta2m.n,
            wdm.n == 0,
    ;
    assert(model_msq2(mean1, msq, v, w, total1).n == 0);
}

/// Merging does not depend on the order of its two groups: swapping the
/// arguments of the two-group combination gives the same total weight by
/// construction, and a mean and sum of squared deviations that denote
/// the same rational numbers.
pub proof fn lemma_merge_symmetric(ma: Frac, qa: Frac, ta: int, mb: Frac, qb: Frac, tb: int)
    requires
        frac_wf(ma),
        frac_wf(qa),
        frac_wf(mb),
        frac_wf(qb),
        ta >= 1,
        tb >= 1,
    ensures
        frac_eq(model_merge_mean(ma, mb, ta, tb), model_merge_mean(mb, ma, tb, ta)),
        frac_eq(
            model_merge_msq(ma, qa, mb, qb, ta, tb),
            model_merge_msq(mb, qb, ma, qa, tb, ta),
        ),
{
    let dd = ta + tb;
    let dn = mb.n * ma.d - ma.n * mb.d;
    let l = model_merge_mean(ma, mb, ta, tb);
    let r = model_merge_mean(mb, ma, tb, ta);
    assert(l.n == ma.n * ((mb.d * ma.d) * dd) + (dn * tb) * ma.d);
    assert(l.d == ma.d * ((mb.d * ma.d) * dd));
    assert(r.n == mb.n * ((ma.d * mb.d) * dd) + ((-dn) * ta) * mb.d);
    assert(r.d == mb.d * ((ma.d * mb.d) * dd));
    let s = ma.n * (mb.d * dd) + dn * tb;
    assert(l.n == ma.d * s) by (nonlinear_arith)
        requires
            l.n == ma.n * ((mb.d * ma.d) * dd) + (dn * tb) * ma.d,
            s == ma.n * (mb.d * dd) + dn * tb,
    ;
    assert(dn * tb + dn * ta == dn * dd) by (nonlinear_arith)
        requires
            dd == ta + tb,
    ;
    assert(dn * dd == (mb.n * ma.d) * dd - (ma.n * mb.d) * dd) by (nonlinear_arith)
        requires
            dn == mb.n * ma.d - ma.n * mb.d,
    ;
    assert((ma.n * mb.d) * dd == ma.n * (mb.d * dd)) by (nonlinear_arith);
    assert((mb.n * ma.d) * dd == mb.n * (ma.d * dd)) by (nonlinear_arith);
    assert(s == mb.n * (ma.d * dd) - dn * ta);
    assert(r.n == mb.d * s) by (nonlinear_arith)
        requires
            r.n == mb.n * ((ma.d * mb.d) * dd) + ((-dn) * ta) * mb.d,
            s == mb.n * (ma.d * dd) - dn * ta,
    ;
    let f = (mb.d * ma.d) * dd;
    assert(l.d == ma.d * f && r.d == mb.d * f) by (nonlinear_arith)
        requires
            l.d == ma.d * ((mb.d * ma.d) * dd),
            r.d == mb.d * ((ma.d * mb.d) * dd),
            f == (mb.d * ma.d) * dd,
    ;
    assert((ma.d * s) * (mb.d * f) == (mb.d * s) * (ma.d * f)) by (nonlinear_arith);
    assert(frac_eq(l, r));
    let sb = sub_raw(mb, ma);
    let t_fwd = mul_raw(scale_raw(sb, ta), divide_raw(scale_raw(sb, tb), dd));
    let t_bwd = mul_raw(
        scale_raw(sub_raw(ma, mb), tb),
        divide_raw(scale_raw(sub_raw(ma, mb), ta), tb + ta),
    );
    assert(t_fwd.n == (dn * ta) * (dn * tb));
    assert(t_bwd.n == ((-dn) * tb) * ((-dn) * ta));
    assert((dn * ta) * (dn * tb) == ((-dn) * tb) * ((-dn) * ta)) by (nonlinear_arith);
    assert(t_fwd.d == (mb.d * ma.d) * ((mb.d * ma.d) * dd));
    assert(t_bwd.d == (ma.d * mb.d) * ((ma.d * mb.d) * dd));
    assert((mb.d * ma.d) * ((mb.d * ma.d) * dd) == (ma.d * mb.d) * ((ma.d * mb.d) * dd)) by (
    nonlinear_arith);
    assert(t_fwd == t_bwd);
    lemma_raw_wf(mb, ma, ta, dd);
    lemma_raw_wf(scale_raw(sb, tb), scale_raw(sb, tb), ta, dd);
    lemma_raw_wf(scale_raw(sb, ta), divide_raw(scale_raw(sb, tb), dd), ta, dd);
    lemma_add_swap(qa, qb, t_fwd);
    assert(model_merge_msq(ma, qa, mb, qb, ta, tb) == add_raw(qa, add_raw(qb, t_fwd)));
    assert(model_merge_msq(mb, qb, ma, qa, tb, ta) == add_raw(qb, add_raw(qa, t_fwd)));
}

/// Merging a group that holds a single sample is the same as pushing
/// that sample: against a group with mean `ma`, sum of squared
/// deviations `qa` and weight `ta`, a one-sample group with value `v`,
/// weight `w` and zero `msq` merges to the mean and `msq` that
/// `push_weighted(v, w)` computes. With [`lemma_merge_symmetric`] and
/// the empty-group clauses of [`Welford::merge`], merging accumulators
/// is observing their streams as one, sample by sample.
pub proof fn lemma_merge_single_sample(ma: Frac, qa: Frac, ta: int, v: Frac, qb: Frac, w: int)
    requires
        frac_wf(ma),
        frac_wf(qa),
        frac_wf(v),
        frac_wf(qb),
        qb.n == 0,
        ta >= 1,
        w >= 1,
    ensures
        model_merge_mean(ma, v, ta, w) == model_mean2(ma, v, w, ta + w),
        frac_eq(model_merge_msq(ma, qa, v, qb, ta, w), model_msq2(ma, qa, v, w, ta + w)),
{
    let tt = ta + w;
    let dn = v.n * ma.d - ma.n * v.d;
    let e = v.d * ma.d;
    let sb = sub_raw(v, ma);
    let co = divide_raw(scale_raw(sb, w), tt);
    let t_merge = mul_raw(scale_raw(sb, ta), co);
    let mean2 = model_mean2(ma, v, w, tt);
    let d2 = sub_raw(v, mean2);
    let t_push = mul_raw(scale_raw(sb, w), d2);
    let m2n = ma.n * (e * tt) + (dn * w) * ma.d;
    let m2d = ma.d * (e * tt);
    assert(d2.n == v.n * m2d - m2n * v.d);
    assert(v.n * m2d == (v.n * ma.d) * (e * tt)) by (nonlinear_arith)
        requires
            m2d == ma.d * (e * tt),
    ;
    assert(m2n * v.d == (ma.n * v.d) * (e * tt) + (dn * w) * (ma.d * v.d)) by (nonlinear_arith)
        requires
            m2n == ma.n * (e * tt) + (dn * w) * ma.d,
    ;
    assert((v.n * ma.d) * (e * tt) - (ma.n * v.d) * (e * tt) == dn * (e * tt)) by (nonlinear_arith)
        requires
            dn == v.n * ma.d - ma.n * v.d,
    ;
    assert((dn * w) * (ma.d * v.d) == (dn * w) * e) by (nonlinear_arith)
        requires
            e == v.d * ma.d,
    ;
    assert(dn * (e * tt) - (dn * w) * e == (e * dn) * ta) by (nonlinear_arith)
        requires
            tt == ta + w,
    ;
    assert(d2.n == (e * dn) * ta);
    assert(d2.d == v.d * m2d);
    assert(t_push.n == (dn * w) * ((e * dn) * ta));
    assert(t_push.d == e * (v.d * m2d));
    assert(t_merge.n == (dn * ta) * (dn * w));
    assert(t_merge.d == e * (e * tt));
    assert(v.d * m2d == e * (e * tt)) by (nonlinear_arith)
        requires
            m2d == ma.d * (e * tt),
            e == v.d * ma.d,
    ;
    let f = e * tt;
    assert(t_merge.n * (e * (e * f)) == (t_merge.n * e) * (e * f)) by (nonlinear_arith);
    assert(t_merge.n * e == t_push.n) by (nonlinear_arith)
        requires
            t_merge.n == (dn * ta) * (dn * w),
            t_push.n == (dn * w) * ((e * dn) * ta),
    ;
    assert(t_push.d == e * (e * f));
    assert(t_merge.d == e * f);
    assert(t_merge.n * t_push.d == t_push.n * t_merge.d);
    assert(frac_eq(t_merge, t_push));
    lemma_raw_wf(v, ma, w, tt);
    lemma_raw_wf(scale_raw(sb, w), scale_raw(sb, w), ta, tt);
    lemma_raw_wf(scale_raw(sb, ta), co, ta, tt);
    lemma_raw_wf(ma, co, ta, tt);
    lemma_raw_wf(v, mean2, ta, tt);
    lemma_raw_wf(scale_raw(sb, w), d2, ta, tt);
    lemma_raw_wf(qb, t_merge, ta, tt);
    crate::rational::lemma_add_zero(qb, t_merge);
    lemma_frac_eq_trans(add_raw(qb, t_merge), t_merge, t_push);
    lemma_add_cong(qa, qa, add_raw(qb, t_merge), t_push);
}

/// The updated mean is the weighted blend of the old mean and the
/// incoming one: `m + (x - m) * u / (s + u)` denotes
/// `(s * m + u * x) / (s + u)` — and the push and merge mean updates are
/// the same expression.
pub proof fn lemma_mean_blend(m: Frac, x: Frac, s: int, u: int)
    requires
        frac_wf(m),
        frac_wf(x),
        s >= 0,
        u >= 1,
    ensures
        model_mean2(m, x, u, s + u) == model_merge_mean(m, x, s, u),
        frac_eq(
            model_merge_mean(m, x, s, u),
            divide_raw(add_raw(scale_raw(m, s), scale_raw(x, u)), s + u),
        ),
{
    let ss = s + u;
    let l = model_merge_mean(m, x, s, u);
    assert(l.n == m.n * ((x.d * m.d) * ss) + ((x.n * m.d - m.n * x.d) * u) * m.d);
    assert(l.d == m.d * ((x.d * m.d) * ss));
    let k = m.n * (x.d * s) + (x.n * u) * m.d;
    assert((x.n * m.d - m.n * x.d) * u == (x.n * m.d) * u - (m.n * x.d) * u) by (nonlinear_arith);
    assert(((x.n * m.d) * u - (m.n * x.d) * u) * m.d == ((x.n * m.d) * u) * m.d - ((m.n * x.d) * u)
        * m.d) by (nonlinear_arith);
    assert((x.d * m.d) * ss == (x.d * m.d) * s + (x.d * m.d) * u) by (nonlinear_arith)
        requires
            ss == s + u,
    ;
    assert(m.n * ((x.d * m.d) * ss) == m.n * ((x.d * m.d) * s) + m.n * ((x.d * m.d) * u)) by (
    nonlinear_arith)
        requires
            (x.d * m.d) * ss == (x.d * m.d) * s + (x.d * m.d) * u,
    ;
    assert(m.n * ((x.d * m.d) * s) == (m.n * (x.d * s)) * m.d) by (nonlinear_arith);
    assert(m.n * ((x.d * m.d) * u) == ((m.n * x.d) * u) * m.d) by (nonlinear_arith);
    assert(((x.n * m.d) * u) * m.d == ((x.n * u) * m.d) * m.d) by (nonlinear_arith);
    assert(m.d * k == (m.n * (x.d * s)) * m.d + ((x.n * u) * m.d) * m.d) by (nonlinear_arith)
        requires
            k == m.n * (x.d * s) + (x.n * u) * m.d,
    ;
    assert(l.n == m.d * k);
    let r = divide_raw(add_raw(scale_raw(m, s), scale_raw(x, u)), ss);
    assert(r.n == (m.n * s) * x.d + (x.n * u) * m.d);
    assert(r.d == (m.d * x.d) * ss);
    assert(r.n == k) by (nonlinear_arith)
        requires
            r.n == (m.n * s) * x.d + (x.n * u) * m.d,
            k == m.n * (x.d * s) + (x.n * u) * m.d,
    ;
    assert(l.n * r.d == r.n * l.d) by (nonlinear_arith)
        requires
            l.n == m.d * k,
            r.n == k,
            l.d == m.d * ((x.d * m.d) * ss),
            r.d == (m.d * x.d) * ss,
    ;
}

/// Merging after a push moves the mean exactly where pushing after the
/// merge does: both ways the mean denotes the blend of all three groups,
/// `(t1*m1 + t2*m2 + w*v) / (t1 + t2 + w)`.
pub proof fn lemma_merge_after_push_mean(m1: Frac, t1: int, m2: Frac, t2: int, v: Frac, w: int)
    requires
        frac_wf(m1),
        frac_wf(m2),
        frac_wf(v),
        t1 >= 1,
        t2 >= 1,
        w >= 1,
    ensures
        frac_eq(
            model_merge_mean(m1, model_mean2(m2, v, w, t2 + w), t1, t2 + w),
            model_mean2(model_merge_mean(m1, m2, t1, t2), v, w, t1 + t2 + w),
        ),
{
    let d2 = t2 + w;
    let tt = t1 + t2 + w;
    let a1 = scale_raw(m1, t1);
    let a2 = scale_raw(m2, t2);
    let a3 = scale_raw(v, w);
    lemma_raw_wf(v, m2, w, d2);
    lemma_raw_wf(scale_raw(sub_raw(v, m2), w), m2, w, d2);
    lemma_raw_wf(m2, divide_raw(scale_raw(sub_raw(v, m2), w), d2), w, d2);
    let mb2 = model_mean2(m2, v, w, d2);
    lemma_mean_blend(m2, v, t2, w);
    lemma_raw_wf(a2, a3, 1, d2);
    lemma_raw_wf(add_raw(a2, a3), a1, 1, d2);
    let bb = divide_raw(add_raw(a2, a3), d2);
    let lhs = model_merge_mean(m1, mb2, t1, d2);
    lemma_mean_blend(m1, mb2, t1, d2);
    let l1 = divide_raw(add_raw(a1, scale_raw(mb2, d2)), tt);
    lemma_scale_cong(mb2, bb, d2);
    crate::rational::lemma_scale_divide_cancel(add_raw(a2, a3), d2);
    lemma_frac_eq_trans(scale_raw(mb2, d2), scale_raw(bb, d2), add_raw(a2, a3));
    lemma_add_cong(a1, a1, scale_raw(mb2, d2), add_raw(a2, a3));
    lemma_raw_wf(a1, scale_raw(mb2, d2), 1, tt);
    lemma_raw_wf(a1, add_raw(a2, a3), 1, tt);
    lemma_divide_cong(add_raw(a1, scale_raw(mb2, d2)), add_raw(a1, add_raw(a2, a3)), tt);
    lemma_raw_wf(add_raw(a1, scale_raw(mb2, d2)), a1, 1, tt);
    let dl = divide_raw(add_raw(a1, add_raw(a2, a3)), tt);
    lemma_frac_eq_trans(lhs, l1, dl);
    lemma_raw_wf(m2, m1, 1, t1 + t2);
    lemma_raw_wf(sub_raw(m2, m1), m1, 1, t1 + t2);
    lemma_raw_wf(scale_raw(sub_raw(m2, m1), t2), m1, 1, t1 + t2);
    lemma_raw_wf(m1, divide_raw(scale_raw(sub_raw(m2, m1), t2), t1 + t2), 1, t1 + t2);
    let mc = model_merge_mean(m1, m2, t1, t2);
    lemma_mean_blend(m1, m2, t1, t2);
    lemma_raw_wf(a1, a2, 1, t1 + t2);
    lemma_raw_wf(add_raw(a1, a2), a1, 1, t1 + t2);
    let cc = divide_raw(add_raw(a1, a2), t1 + t2);
    let rhs = model_mean2(mc, v, w, tt);
    lemma_mean_blend(mc, v, t1 + t2, w);
    let r1 = divide_raw(add_raw(scale_raw(mc, t1 + t2), a3), tt);
    lemma_scale_cong(mc, cc, t1 + t2);
    crate::rational::lemma_scale_divide_cancel(add_raw(a1, a2), t1 + t2);
    lemma_frac_eq_trans(scale_raw(mc, t1 + t2), scale_raw(cc, t1 + t2), add_raw(a1, a2));
    lemma_add_cong(scale_raw(mc, t1 + t2), add_raw(a1, a2), a3, a3);
    lemma_raw_wf(scale_raw(mc, t1 + t2), a3, 1, tt);
    lemma_raw_wf(add_raw(a1, a2), a3, 1, tt);
    lemma_divide_cong(add_raw(scale_raw(mc, t1 + t2), a3), add_raw(add_raw(a1, a2), a3), tt);
    lemma_raw_wf(add_raw(scale_raw(mc, t1 + t2), a3), a1, 1, tt);
    let dr = divide_raw(add_raw(add_raw(a1, a2), a3), tt);
    lemma_frac_eq_trans(rhs, r1, dr);
    crate::rational::lemma_add_assoc(a1, a2, a3);
    lemma_divide_cong(add_raw(a1, add_raw(a2, a3)), add_raw(add_raw(a1, a2), a3), tt);
    lemma_raw_wf(a2, a3, 1, tt);
    lemma_raw_wf(a1, add_raw(a2, a3), 1, tt);
    lemma_raw_wf(add_raw(a1, add_raw(a2, a3)), a1, 1, tt);
    lemma_raw_wf(add_raw(add_raw(a1, a2), a3), a1, 1, tt);
    lemma_frac_eq_trans(lhs, dl, dr);
    lemma_frac_eq_trans(lhs, dr, rhs);
}

impl Default for Welford {
    /// Alias for [`Welford::new`].
    fn default() -> (r: Welford)
        ensures
            r.wf(),
            stats_wf(r@),
            r@.total == 0,
            (r@.mean is None),
            r@.msq == int_frac(0),
    {
        Welford::new()
    }
}

} // verus!
