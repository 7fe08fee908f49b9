//! Exact decimal numbers for prices, and the rounded means computed from them.
//!
//! A [`Decimal`] is `unscaled × 10^-scale` with an integer of any size, the
//! representation `BigDecimal` uses; prices read from the exchanges and from
//! the database are held in it, and their sums, comparisons and rounded
//! quotients are computed by `BigDecimal`.

use vstd::prelude::*;
use bigdecimal::{BigDecimal, RoundingMode};
use bigdecimal::num_bigint::BigInt;
use crate::text::{all_digits, copy_string, digits_value, string_of};

verus! {

/// A decimal number: `unscaled × 10^(-scale)`, the integer written in base
/// ten with an optional leading `-`.
#[derive(Clone, Debug)]
pub struct Decimal {
    pub unscaled: String,
    pub scale: i64,
}

/// Whether `s` writes an integer: an optional `-`, then at least one digit.
pub open spec fn int_text(s: Seq<char>) -> bool {
    if s.len() > 0 && s[0] == '-' {
        all_digits(s.drop_first())
    } else {
        all_digits(s)
    }
}

/// The integer that `s` writes.
pub open spec fn int_of(s: Seq<char>) -> int {
    if s.len() > 0 && s[0] == '-' {
        -(digits_value(s.drop_first()) as int)
    } else {
        digits_value(s) as int
    }
}

impl View for Decimal {
    type V = (int, int);

    /// The unscaled integer and the scale.
    open spec fn view(&self) -> (int, int) {
        (int_of(self.unscaled@), self.scale as int)
    }
}

/// A decimal whose unscaled integer is well written.
pub open spec fn wf(d: Decimal) -> bool {
    int_text(d.unscaled@)
}

/// Every decimal of `p` is well written.
pub open spec fn all_wf(p: Seq<Decimal>) -> bool {
    forall|i: int| 0 <= i < p.len() ==> wf(#[trigger] p[i])
}

/// The values of a list of decimals.
pub open spec fn views(p: Seq<Decimal>) -> Seq<(int, int)> {
    p.map_values(|d: Decimal| d@)
}

/// Ten to the power `n`.
pub open spec fn pow10(n: nat) -> int
    decreases n,
{
    if n == 0 {
        1
    } else {
        10 * pow10((n - 1) as nat)
    }
}

pub proof fn lemma_pow10_pos(n: nat)
    ensures
        pow10(n) >= 1,
    decreases n,
{
    if n > 0 {
        lemma_pow10_pos((n - 1) as nat);
    }
}

pub proof fn lemma_pow10_mono(a: nat, b: nat)
    requires
        a <= b,
    ensures
        pow10(a) <= pow10(b),
    decreases b,
{
    if a < b {
        lemma_pow10_mono(a, (b - 1) as nat);
        lemma_pow10_pos((b - 1) as nat);
    }
}

/// The scale of `v` moved up by `2^63`, so that it is never negative for a
/// scale that an `i64` holds.
pub open spec fn shift(v: (int, int)) -> nat {
    (v.1 + 9223372036854775808) as nat
}

/// `a < b` as numbers (both sides multiplied by `10^(a.1 + b.1 + 2^63)`).
pub open spec fn value_lt(a: (int, int), b: (int, int)) -> bool {
    a.0 * pow10(shift(b)) < b.0 * pow10(shift(a))
}

/// The sum `BigDecimal` forms: both aligned to the larger scale and added.
pub open spec fn add_spec(a: (int, int), b: (int, int)) -> (int, int) {
    let m = if a.1 >= b.1 { a.1 } else { b.1 };
    (a.0 * pow10((m - a.1) as nat) + b.0 * pow10((m - b.1) as nat), m)
}

/// The sum of `p` formed from zero (scale 0), adding the members in order.
pub open spec fn sum_list(p: Seq<(int, int)>) -> (int, int)
    decreases p.len(),
{
    if p.len() == 0 {
        (0, 0)
    } else {
        add_spec(sum_list(p.drop_last()), p.last())
    }
}

/// Integer quotient `n / d` rounded away from zero (`d > 0`).
pub open spec fn div_away(n: int, d: int) -> int {
    if n >= 0 {
        (n + d - 1) / d
    } else {
        -((-n + d - 1) / d)
    }
}

/// What `BigDecimal` gives, at scale 4, for `unscaled × 10^-scale` divided by
/// `count` and rounded away from zero to four places.
pub uninterp spec fn big_decimal_quotient_up4(unscaled: int, scale: int, count: int) -> int;

/// The sums on which that division is exact before rounding: a count of at
/// most 10^9, a scale from 0 to 10, and a quotient below 10^18 in magnitude.
pub open spec fn exact_quotient_range(s: (int, int), count: int) -> bool {
    &&& 1 <= count <= 1_000_000_000
    &&& 0 <= s.1 <= 10
    &&& -(count * 1_000_000_000_000_000_000 * pow10(s.1 as nat)) <= s.0
        <= count * 1_000_000_000_000_000_000 * pow10(s.1 as nat)
}

/// The unscaled integer, at scale 4, of `s / count` rounded away from zero:
/// the exact rounding where [`exact_quotient_range`] holds, what `BigDecimal`
/// computes elsewhere.
pub open spec fn quotient_up4(s: (int, int), count: int) -> int {
    if exact_quotient_range(s, count) {
        div_away(s.0 * 10000, count * pow10(s.1 as nat))
    } else {
        big_decimal_quotient_up4(s.0, s.1, count)
    }
}

/// The mean of `p` rounded away from zero to four places, at scale 4 (zero
/// for an empty list, whose sum is divided by one).
pub open spec fn mean_up4(p: Seq<(int, int)>) -> (int, int) {
    (quotient_up4(sum_list(p), if p.len() == 0 { 1 } else { p.len() as int }), 4)
}

/// `BigDecimal` comparison `a < b`.
/// Claimed: the numeric order of the two values.
#[verifier::external_body]
pub(crate) fn decimal_lt(a: &Decimal, b: &Decimal) -> (r: bool)
    requires
        wf(*a),
        wf(*b),
    ensures
        r == value_lt(a@, b@),
{
    BigDecimal::new(a.unscaled.parse::<BigInt>().unwrap(), a.scale)
        < BigDecimal::new(b.unscaled.parse::<BigInt>().unwrap(), b.scale)
}

/// `BigDecimal` addition `a + &b`.
/// Claimed: the exact sum at the larger of the two scales (the smaller-scaled
/// operand is multiplied up to it), written by `BigInt`'s `Display`.
#[verifier::external_body]
fn decimal_add(a: &Decimal, b: &Decimal) -> (r: Decimal)
    requires
        wf(*a),
        wf(*b),
    ensures
        wf(r),
        r@ == add_spec(a@, b@),
{
    let sum = BigDecimal::new(a.unscaled.parse::<BigInt>().unwrap(), a.scale)
        + &BigDecimal::new(b.unscaled.parse::<BigInt>().unwrap(), b.scale);
    let (digits, scale) = sum.as_bigint_and_exponent();
    Decimal { unscaled: digits.to_string(), scale }
}

/// `BigDecimal` division of `sum` by `count` followed by
/// `with_scale_round(4, RoundingMode::Up)`, as the mean of prices is taken.
///
/// Claimed: the result has scale 4 and its unscaled integer is
/// [`quotient_up4`]: [`big_decimal_quotient_up4`] of the arguments in general,
/// and the exact quotient rounded away from zero where
/// [`exact_quotient_range`] holds. There bigdecimal divides to 100
/// significant digits (rounding the last one) while the quotient has at most
/// 19 integer digits and lies at least 10^-(4 + scale) / count from any
/// multiple of 10^-4 it is not equal to, so rounding the computed quotient up
/// to four places matches the exact one.
#[verifier::external_body]
fn big_decimal_div_round_up4(sum: &Decimal, count: u64) -> (r: Decimal)
    requires
        wf(*sum),
        count >= 1,
    ensures
        wf(r),
        r.scale == 4,
        r@.0 == quotient_up4(sum@, count as int),
        !exact_quotient_range(sum@, count as int) ==> r@.0 == big_decimal_quotient_up4(sum@.0, sum@.1, count as int),
{
    let quotient = BigDecimal::new(sum.unscaled.parse::<BigInt>().unwrap(), sum.scale) / BigDecimal::from(count);
    let (digits, _) = quotient.with_scale_round(4, RoundingMode::Up).as_bigint_and_exponent();
    Decimal { unscaled: digits.to_string(), scale: 4 }
}

/// Zero, as `BigDecimal::zero()`.
pub fn zero_decimal() -> (r: Decimal)
    ensures
        wf(r),
        r@ == (0int, 0int),
{
    let r = Decimal { unscaled: string_of(vec!['0']), scale: 0 };
    assert(r.unscaled@ =~= seq!['0']);
    assert(r.unscaled@.drop_last() =~= Seq::<char>::empty());
    assert(r.unscaled@.last() == '0');
    assert(digits_value(r.unscaled@) == digits_value(r.unscaled@.drop_last()) * 10 + (('0' as u32) - ('0' as u32)) as nat);
    assert(crate::text::is_digit(r.unscaled@[0]));
    r
}

/// A copy of a decimal.
pub fn copy_decimal(d: &Decimal) -> (r: Decimal)
    ensures
        r.unscaled@ == d.unscaled@,
        r.scale == d.scale,
        r@ == d@,
{
    Decimal { unscaled: copy_string(&d.unscaled), scale: d.scale }
}

/// `price / count` rounded away from zero to four places; a zero count divides by one.
pub fn get_round(price: &Decimal, count: u64) -> (r: Decimal)
    requires
        wf(*price),
    ensures
        wf(r),
        r.scale == 4,
        r@.0 == quotient_up4(price@, if count == 0 { 1 } else { count as int }),
{
    if count == 0 {
        big_decimal_div_round_up4(price, 1)
    } else {
        big_decimal_div_round_up4(price, count)
    }
}

/// The mean of the prices rounded away from zero to four places (zero when
/// the list is empty).
pub fn get_calculator_avg(resp_prices: &Vec<Decimal>) -> (r: Decimal)
    requires
        all_wf(resp_prices@),
    ensures
        wf(r),
        r@ == mean_up4(views(resp_prices@)),
{
    let ghost v = views(resp_prices@);
    let mut sum = zero_decimal();
    let mut i: usize = 0;
    assert(v.take(0) =~= Seq::<(int, int)>::empty());
    while i < resp_prices.len()
        invariant
            i <= resp_prices.len(),
            v == views(resp_prices@),
            all_wf(resp_prices@),
            wf(sum),
            sum@ == sum_list(v.take(i as int)),
        decreases resp_prices.len() - i,
    {
        assert(v.take(i + 1).drop_last() =~= v.take(i as int));
        assert(v.take(i + 1).last() == resp_prices@[i as int]@);
        assert(wf(resp_prices@[i as int]));
        sum = decimal_add(&sum, &resp_prices[i]);
        i += 1;
    }
    assert(v.take(resp_prices.len() as int) =~= v);
    get_round(&sum, resp_prices.len() as u64)
}

/// The members of `p` worth more than `avg`, in order.
pub open spec fn closes_above(p: Seq<(int, int)>, avg: (int, int)) -> Seq<(int, int)>
    decreases p.len(),
{
    if p.len() == 0 {
        Seq::empty()
    } else if value_lt(avg, p.last()) {
        closes_above(p.drop_last(), avg).push(p.last())
    } else {
        closes_above(p.drop_last(), avg)
    }
}

/// The members of `p` worth less than `avg`, in order.
pub open spec fn closes_below(p: Seq<(int, int)>, avg: (int, int)) -> Seq<(int, int)>
    decreases p.len(),
{
    if p.len() == 0 {
        Seq::empty()
    } else if value_lt(p.last(), avg) {
        closes_below(p.drop_last(), avg).push(p.last())
    } else {
        closes_below(p.drop_last(), avg)
    }
}

/// Position of the maximum of `p`, the last one when several are equal
/// (as `Iterator::max` picks it).
pub open spec fn last_max_index(p: Seq<(int, int)>) -> int
    decreases p.len(),
{
    if p.len() <= 1 {
        0
    } else {
        let k = last_max_index(p.drop_last());
        if value_lt(p.last(), p[k]) {
            k
        } else {
            p.len() - 1
        }
    }
}

/// Position of the minimum of `p`, the first one when several are equal
/// (as `Iterator::min` picks it).
pub open spec fn first_min_index(p: Seq<(int, int)>) -> int
    decreases p.len(),
{
    if p.len() <= 1 {
        0
    } else {
        let k = first_min_index(p.drop_last());
        if value_lt(p.last(), p[k]) {
            p.len() - 1
        } else {
            k
        }
    }
}

pub proof fn lemma_index_in_range(p: Seq<(int, int)>)
    requires
        p.len() > 0,
    ensures
        0 <= last_max_index(p) < p.len(),
        0 <= first_min_index(p) < p.len(),
    decreases p.len(),
{
    if p.len() > 1 {
        lemma_index_in_range(p.drop_last());
    }
}

/// Keeps the members above (`above`) or below (`!above`) `avg`.
pub(crate) fn filter_closes(p: &Vec<Decimal>, avg: &Decimal, above: bool) -> (r: Vec<Decimal>)
    requires
        all_wf(p@),
        wf(*avg),
    ensures
        all_wf(r@),
        views(r@) == (if above { closes_above(views(p@), avg@) } else { closes_below(views(p@), avg@) }),
{
    let ghost v = views(p@);
    let mut out: Vec<Decimal> = Vec::new();
    let mut i: usize = 0;
    assert(v.take(0) =~= Seq::<(int, int)>::empty());
    assert(views(out@) =~= Seq::<(int, int)>::empty());
    while i < p.len()
        invariant
            i <= p.len(),
            v == views(p@),
            all_wf(p@),
            wf(*avg),
            all_wf(out@),
            views(out@) == (if above { closes_above(v.take(i as int), avg@) } else { closes_below(v.take(i as int), avg@) }),
        decreases p.len() - i,
    {
        assert(v.take(i + 1).drop_last() =~= v.take(i as int));
        assert(v.take(i + 1).last() == p@[i as int]@);
        assert(wf(p@[i as int]));
        let keep = if above { decimal_lt(avg, &p[i]) } else { decimal_lt(&p[i], avg) };
        if keep {
            let c = copy_decimal(&p[i]);
            let ghost before = out@;
            out.push(c);
            assert(views(out@) =~= views(before).push(c@));
        }
        i += 1;
    }
    assert(v.take(p.len() as int) =~= v);
    out
}

/// The last maximum of a non-empty list.
fn max_exec(p: &Vec<Decimal>) -> (r: Decimal)
    requires
        p.len() > 0,
        all_wf(p@),
    ensures
        wf(r),
        r@ == views(p@)[last_max_index(views(p@))],
{
    let ghost v = views(p@);
    let mut best: usize = 0;
    let mut i: usize = 1;
    assert(v.take(1).len() == 1);
    while i < p.len()
        invariant
            1 <= i <= p.len(),
            v == views(p@),
            all_wf(p@),
            best < i,
            best == last_max_index(v.take(i as int)),
        decreases p.len() - i,
    {
        assert(v[i as int] == p@[i as int]@ && v[best as int] == p@[best as int]@);
        assert(v.take(i + 1).drop_last() =~= v.take(i as int));
        assert(v.take(i + 1).last() == v[i as int]);
        assert(v.take(i + 1)[best as int] == v[best as int]);
        assert(wf(p@[i as int]) && wf(p@[best as int]));
        if !decimal_lt(&p[i], &p[best]) {
            best = i;
        }
        i += 1;
    }
    assert(v.take(p.len() as int) =~= v);
    assert(wf(p@[best as int]));
    copy_decimal(&p[best])
}

/// The first minimum of a non-empty list.
fn min_exec(p: &Vec<Decimal>) -> (r: Decimal)
    requires
        p.len() > 0,
        all_wf(p@),
    ensures
        wf(r),
        r@ == views(p@)[first_min_index(views(p@))],
{
    let ghost v = views(p@);
    let mut best: usize = 0;
    let mut i: usize = 1;
    assert(v.take(1).len() == 1);
    while i < p.len()
        invariant
            1 <= i <= p.len(),
            v == views(p@),
            all_wf(p@),
            best < i,
            best == first_min_index(v.take(i as int)),
        decreases p.len() - i,
    {
        assert(v[i as int] == p@[i as int]@ && v[best as int] == p@[best as int]@);
        assert(v.take(i + 1).drop_last() =~= v.take(i as int));
        assert(v.take(i + 1).last() == v[i as int]);
        assert(v.take(i + 1)[best as int] == v[best as int]);
        assert(wf(p@[i as int]) && wf(p@[best as int]));
        if decimal_lt(&p[i], &p[best]) {
            best = i;
        }
        i += 1;
    }
    assert(v.take(p.len() as int) =~= v);
    assert(wf(p@[best as int]));
    copy_decimal(&p[best])
}

/// The highest price above the mean and the mean of the prices above it.
pub fn max_and_mean_above(price_avg: &Decimal, closes: &Vec<Decimal>) -> (r: (Decimal, Decimal))
    requires
        wf(*price_avg),
        all_wf(closes@),
        closes_above(views(closes@), price_avg@).len() > 0,
    ensures
        wf(r.0) && wf(r.1),
        r.0@ == closes_above(views(closes@), price_avg@)[last_max_index(closes_above(views(closes@), price_avg@))],
        r.1@ == mean_up4(closes_above(views(closes@), price_avg@)),
{
    let list = filter_closes(closes, price_avg, true);
    let max_price = max_exec(&list);
    let avg_price = get_calculator_avg(&list);
    (max_price, avg_price)
}

/// The lowest price below the mean and the mean of the prices below it.
pub fn min_and_mean_below(price_avg: &Decimal, closes: &Vec<Decimal>) -> (r: (Decimal, Decimal))
    requires
        wf(*price_avg),
        all_wf(closes@),
        closes_below(views(closes@), price_avg@).len() > 0,
    ensures
        wf(r.0) && wf(r.1),
        r.0@ == closes_below(views(closes@), price_avg@)[first_min_index(closes_below(views(closes@), price_avg@))],
        r.1@ == mean_up4(closes_below(views(closes@), price_avg@)),
{
    let list = filter_closes(closes, price_avg, false);
    let min_price = min_exec(&list);
    let avg_price = get_calculator_avg(&list);
    (min_price, avg_price)
}

/// Every member of `closes_above(p, avg)` is worth more than `avg`, and every
/// member of `closes_below(p, avg)` less.
pub proof fn lemma_filtered_sides(p: Seq<(int, int)>, avg: (int, int))
    ensures
        forall|k: int| 0 <= k < closes_above(p, avg).len() ==> value_lt(avg, #[trigger] closes_above(p, avg)[k]),
        forall|k: int| 0 <= k < closes_below(p, avg).len() ==> value_lt(#[trigger] closes_below(p, avg)[k], avg),
    decreases p.len(),
{
    if p.len() > 0 {
        lemma_filtered_sides(p.drop_last(), avg);
        let a = closes_above(p.drop_last(), avg);
        let b = closes_below(p.drop_last(), avg);
        assert forall|k: int| 0 <= k < closes_above(p, avg).len() implies value_lt(avg, #[trigger] closes_above(p, avg)[k]) by {
            if value_lt(avg, p.last()) && k == a.len() {
            } else {
                assert(closes_above(p, avg)[k] == a[k]);
            }
        }
        assert forall|k: int| 0 <= k < closes_below(p, avg).len() implies value_lt(#[trigger] closes_below(p, avg)[k], avg) by {
            if value_lt(p.last(), avg) && k == b.len() {
            } else {
                assert(closes_below(p, avg)[k] == b[k]);
            }
        }
    }
}

/// `<` on decimals is transitive.
pub proof fn lemma_value_lt_trans(a: (int, int), b: (int, int), c: (int, int))
    requires
        value_lt(a, b),
        value_lt(b, c),
    ensures
        value_lt(a, c),
{
    let pa = pow10(shift(a));
    let pb = pow10(shift(b));
    let pc = pow10(shift(c));
    lemma_pow10_pos(shift(a));
    lemma_pow10_pos(shift(b));
    lemma_pow10_pos(shift(c));
    let (ad, bd, cd) = (a.0, b.0, c.0);
    assert(ad * pb * pc < bd * pa * pc) by (nonlinear_arith)
        requires ad * pb < bd * pa, pc >= 1;
    assert(bd * pc * pa < cd * pb * pa) by (nonlinear_arith)
        requires bd * pc < cd * pb, pa >= 1;
    assert(ad * pc * pb < cd * pa * pb) by (nonlinear_arith)
        requires ad * pb * pc < bd * pa * pc, bd * pc * pa < cd * pb * pa;
    assert(ad * pc < cd * pa) by (nonlinear_arith)
        requires ad * pc * pb < cd * pa * pb, pb >= 1;
}

/// `!(a < b)` and `!(b < c)` give `!(a < c)`.
pub proof fn lemma_value_le_trans(a: (int, int), b: (int, int), c: (int, int))
    requires
        !value_lt(a, b),
        !value_lt(b, c),
    ensures
        !value_lt(a, c),
{
    let pa = pow10(shift(a));
    let pb = pow10(shift(b));
    let pc = pow10(shift(c));
    lemma_pow10_pos(shift(a));
    lemma_pow10_pos(shift(b));
    lemma_pow10_pos(shift(c));
    let (ad, bd, cd) = (a.0, b.0, c.0);
    assert(ad * pb * pc >= bd * pa * pc) by (nonlinear_arith)
        requires ad * pb >= bd * pa, pc >= 1;
    assert(bd * pc * pa >= cd * pb * pa) by (nonlinear_arith)
        requires bd * pc >= cd * pb, pa >= 1;
    assert(ad * pc * pb >= cd * pa * pb) by (nonlinear_arith)
        requires ad * pb * pc >= bd * pa * pc, bd * pc * pa >= cd * pb * pa;
    assert(ad * pc >= cd * pa) by (nonlinear_arith)
        requires ad * pc * pb >= cd * pa * pb, pb >= 1;
}

/// The picked maximum is no less than any member, and the picked minimum no
/// greater.
pub proof fn lemma_extremes(p: Seq<(int, int)>)
    requires
        p.len() > 0,
    ensures
        forall|j: int| 0 <= j < p.len() ==> !value_lt(p[last_max_index(p)], #[trigger] p[j]),
        forall|j: int| 0 <= j < p.len() ==> !value_lt(#[trigger] p[j], p[first_min_index(p)]),
    decreases p.len(),
{
    lemma_index_in_range(p);
    if p.len() == 1 {
        assert forall|j: int| 0 <= j < p.len() implies !value_lt(p[last_max_index(p)], #[trigger] p[j]) by {
            assert(j == 0);
        }
        assert forall|j: int| 0 <= j < p.len() implies !value_lt(#[trigger] p[j], p[first_min_index(p)]) by {
            assert(j == 0);
        }
    } else {
        let q = p.drop_last();
        lemma_extremes(q);
        lemma_index_in_range(q);
        let k = last_max_index(q);
        let m = first_min_index(q);
        assert(q[k] == p[k] && q[m] == p[m]);
        assert forall|j: int| 0 <= j < p.len() implies !value_lt(p[last_max_index(p)], #[trigger] p[j]) by {
            if j < p.len() - 1 {
                assert(q[j] == p[j]);
                if !value_lt(p.last(), p[k]) {
                    lemma_value_le_trans(p.last(), p[k], p[j]);
                }
            }
        }
        assert forall|j: int| 0 <= j < p.len() implies !value_lt(#[trigger] p[j], p[first_min_index(p)]) by {
            if j < p.len() - 1 {
                assert(q[j] == p[j]);
                if value_lt(p.last(), p[m]) {
                    if value_lt(p[j], p.last()) {
                        lemma_value_lt_trans(p[j], p.last(), p[m]);
                    }
                }
            }
        }
    }
}

/// Law: `<` on decimals is a strict order of their values: never `a < a`,
/// never both `a < b` and `b < a`, and a value written at a finer scale
/// (`10 × unscaled` at one more place) compares as the value itself.
pub proof fn lemma_value_lt_strict(a: (int, int), b: (int, int))
    requires
        -9223372036854775808 <= a.1 < 9223372036854775807,
    ensures
        !value_lt(a, a),
        value_lt(a, b) ==> !value_lt(b, a),
        value_lt(a, b) == value_lt((a.0 * 10, a.1 + 1), b),
        value_lt(b, a) == value_lt(b, (a.0 * 10, a.1 + 1)),
{
    let pa = pow10(shift(a));
    let pb = pow10(shift(b));
    lemma_pow10_pos(shift(b));
    let a2 = (a.0 * 10, a.1 + 1);
    assert(shift(a2) == shift(a) + 1);
    assert(pow10(shift(a2)) == 10 * pa);
    assert((a.0 * pb < b.0 * pa) == (a.0 * 10 * pb < b.0 * (10 * pa))) by (nonlinear_arith);
    assert((b.0 * pa < a.0 * pb) == (b.0 * (10 * pa) < a.0 * 10 * pb)) by (nonlinear_arith);
}

/// `10^(m + n) = 10^m × 10^n`.
pub proof fn lemma_pow10_add(m: nat, n: nat)
    ensures
        pow10(m + n) == pow10(m) * pow10(n),
    decreases m,
{
    if m > 0 {
        lemma_pow10_add((m - 1) as nat, n);
        assert(pow10(m + n) == 10 * pow10((m - 1 + n) as nat));
        assert(10 * (pow10((m - 1) as nat) * pow10(n)) == (10 * pow10((m - 1) as nat)) * pow10(n)) by (nonlinear_arith);
    }
}

/// The value of `v` in units of `10^-4` (exact for scales from 0 to 4).
pub open spec fn units(v: (int, int)) -> int {
    v.0 * pow10((4 - v.1) as nat)
}

/// The sum of the members of `p` in units of `10^-4`.
pub open spec fn units_sum(p: Seq<(int, int)>) -> int
    decreases p.len(),
{
    if p.len() == 0 {
        0
    } else {
        units_sum(p.drop_last()) + units(p.last())
    }
}

/// A price as the price tables give it: positive, with at most four decimal
/// places, and at most `10^18`.
pub open spec fn plain_price(v: (int, int)) -> bool {
    &&& 0 < v.0
    &&& 0 <= v.1 <= 4
    &&& units(v) <= 10_000_000_000_000_000_000_000
}

/// Every member of `p` is a plain price.
pub open spec fn all_plain(p: Seq<(int, int)>) -> bool {
    forall|i: int| 0 <= i < p.len() ==> plain_price(#[trigger] p[i])
}

/// For scales from 0 to 4, `<` on decimals is `<` on their units.
pub proof fn lemma_units_lt(a: (int, int), b: (int, int))
    requires
        0 <= a.1 <= 4,
        0 <= b.1 <= 4,
    ensures
        value_lt(a, b) == (units(a) < units(b)),
{
    let e: nat = (a.1 + b.1 + 9223372036854775804) as nat;
    lemma_pow10_add((4 - a.1) as nat, e);
    lemma_pow10_add((4 - b.1) as nat, e);
    assert(shift(b) == (4 - a.1) as nat + e);
    assert(shift(a) == (4 - b.1) as nat + e);
    let pe = pow10(e);
    lemma_pow10_pos(e);
    let ua = units(a);
    let ub = units(b);
    assert(a.0 * pow10(shift(b)) == ua * pe) by (nonlinear_arith)
        requires pow10(shift(b)) == pow10((4 - a.1) as nat) * pe, ua == a.0 * pow10((4 - a.1) as nat);
    assert(b.0 * pow10(shift(a)) == ub * pe) by (nonlinear_arith)
        requires pow10(shift(a)) == pow10((4 - b.1) as nat) * pe, ub == b.0 * pow10((4 - b.1) as nat);
    assert((ua * pe < ub * pe) == (ua < ub)) by (nonlinear_arith)
        requires pe >= 1;
}

/// For scales from 0 to 4, the sum keeps its scale in that range and its
/// units are the sum of the units.
pub proof fn lemma_sum_units(p: Seq<(int, int)>)
    requires
        forall|i: int| 0 <= i < p.len() ==> 0 <= (#[trigger] p[i]).1 <= 4,
    ensures
        0 <= sum_list(p).1 <= 4,
        units(sum_list(p)) == units_sum(p),
    decreases p.len(),
{
    if p.len() > 0 {
        let q = p.drop_last();
        assert forall|i: int| 0 <= i < q.len() implies 0 <= (#[trigger] q[i]).1 <= 4 by {
            assert(q[i] == p[i]);
        }
        lemma_sum_units(q);
        let s = sum_list(q);
        let x = p.last();
        assert(0 <= x.1 <= 4);
        let m = if s.1 >= x.1 { s.1 } else { x.1 };
        let ps = pow10((m - s.1) as nat);
        let px = pow10((m - x.1) as nat);
        let pm = pow10((4 - m) as nat);
        lemma_pow10_add((m - s.1) as nat, (4 - m) as nat);
        lemma_pow10_add((m - x.1) as nat, (4 - m) as nat);
        assert(((m - s.1) as nat + (4 - m) as nat) as nat == (4 - s.1) as nat);
        assert(((m - x.1) as nat + (4 - m) as nat) as nat == (4 - x.1) as nat);
        assert((s.0 * ps + x.0 * px) * pm == s.0 * (ps * pm) + x.0 * (px * pm)) by (nonlinear_arith);
        assert(sum_list(p) == add_spec(s, x));
        assert(add_spec(s, x) == (s.0 * ps + x.0 * px, m));
        assert(units(sum_list(p)) == (s.0 * ps + x.0 * px) * pm);
        assert(ps * pm == pow10((4 - s.1) as nat));
        assert(px * pm == pow10((4 - x.1) as nat));
        assert(units(sum_list(p)) == units(s) + units(x));
        assert(units_sum(p) == units_sum(q) + units(x));
    } else {
        assert(sum_list(p) == (0int, 0int));
        assert(units(sum_list(p)) == 0);
    }
}

/// Bounds on the members bound the sum.
pub proof fn lemma_units_sum_bounds(p: Seq<(int, int)>, lo: int, hi: int)
    requires
        forall|i: int| 0 <= i < p.len() ==> lo <= units(#[trigger] p[i]) <= hi,
    ensures
        p.len() * lo <= units_sum(p) <= p.len() * hi,
    decreases p.len(),
{
    if p.len() > 0 {
        let q = p.drop_last();
        assert forall|i: int| 0 <= i < q.len() implies lo <= units(#[trigger] q[i]) <= hi by {
            assert(q[i] == p[i]);
        }
        lemma_units_sum_bounds(q, lo, hi);
        assert(lo <= units(p[p.len() - 1]) <= hi);
        let n = q.len() as int;
        assert((n + 1) * lo == n * lo + lo && (n + 1) * hi == n * hi + hi) by (nonlinear_arith);
    }
}

/// The rounded mean of at most `10^9` plain prices is their exact mean
/// rounded up to four places: `mean × n ≥ sum > (mean − 10^-4) × n`, all in
/// units of `10^-4`.
pub proof fn lemma_mean_up4_bounds(p: Seq<(int, int)>)
    requires
        0 < p.len() <= 1_000_000_000,
        all_plain(p),
    ensures
        mean_up4(p).1 == 4,
        mean_up4(p).0 * p.len() >= units_sum(p),
        (mean_up4(p).0 - 1) * p.len() < units_sum(p),
{
    let n = p.len() as int;
    let s = sum_list(p);
    lemma_sum_units(p);
    assert forall|i: int| 0 <= i < p.len() implies 0 <= units(#[trigger] p[i]) <= 10_000_000_000_000_000_000_000 by {
        lemma_pow10_pos((4 - p[i].1) as nat);
        assert(p[i].0 * pow10((4 - p[i].1) as nat) >= 0) by (nonlinear_arith)
            requires p[i].0 > 0, pow10((4 - p[i].1) as nat) >= 1;
    }
    lemma_units_sum_bounds(p, 0, 10_000_000_000_000_000_000_000);
    let u = units_sum(p);
    let ps = pow10(s.1 as nat);
    let pr = pow10((4 - s.1) as nat);
    lemma_pow10_pos(s.1 as nat);
    lemma_pow10_pos((4 - s.1) as nat);
    lemma_pow10_add(s.1 as nat, (4 - s.1) as nat);
    assert((s.1 as nat + (4 - s.1) as nat) as nat == 4);
    reveal_with_fuel(pow10, 5);
    assert(ps * pr == 10000);
    assert(s.0 * pr == u);
    assert(s.0 >= 0) by (nonlinear_arith)
        requires s.0 * pr == u, u >= 0, pr >= 1;
    assert(s.0 <= n * 1_000_000_000_000_000_000 * ps) by (nonlinear_arith)
        requires s.0 * pr == u, u <= n * 10_000_000_000_000_000_000_000, ps * pr == 10000, pr >= 1, ps >= 1, n >= 1;
    assert(exact_quotient_range(s, n));
    let x = s.0 * 10000;
    let d = n * ps;
    assert(d >= 1) by (nonlinear_arith)
        requires n >= 1, ps >= 1, d == n * ps;
    assert(x == u * ps) by (nonlinear_arith)
        requires s.0 * pr == u, ps * pr == 10000, x == s.0 * 10000;
    let q = (x + d - 1) / d;
    assert(mean_up4(p).0 == q);
    vstd::arithmetic::div_mod::lemma_fundamental_div_mod(x + d - 1, d);
    vstd::arithmetic::div_mod::lemma_mod_bound(x + d - 1, d);
    assert(q * n * ps >= u * ps) by (nonlinear_arith)
        requires x + d - 1 == d * q + (x + d - 1) % d, (x + d - 1) % d < d, x == u * ps, d == n * ps;
    assert(q * n >= u) by (nonlinear_arith)
        requires q * n * ps >= u * ps, ps >= 1;
    assert((q - 1) * n * ps < u * ps) by (nonlinear_arith)
        requires x + d - 1 == d * q + (x + d - 1) % d, 0 <= (x + d - 1) % d, x == u * ps, d == n * ps;
    assert((q - 1) * n < u) by (nonlinear_arith)
        requires (q - 1) * n * ps < u * ps, ps >= 1;
}

/// The members kept above or below a value are plain where `p`'s are, and
/// no more than `p`'s.
pub proof fn lemma_filtered_plain(p: Seq<(int, int)>, avg: (int, int))
    requires
        all_plain(p),
    ensures
        all_plain(closes_above(p, avg)),
        all_plain(closes_below(p, avg)),
        closes_above(p, avg).len() <= p.len(),
        closes_below(p, avg).len() <= p.len(),
    decreases p.len(),
{
    if p.len() > 0 {
        let q = p.drop_last();
        assert forall|i: int| 0 <= i < q.len() implies plain_price(#[trigger] q[i]) by {
            assert(q[i] == p[i]);
        }
        lemma_filtered_plain(q, avg);
        assert(plain_price(p[p.len() - 1]));
        let a = closes_above(q, avg);
        let b = closes_below(q, avg);
        assert forall|i: int| 0 <= i < closes_above(p, avg).len() implies plain_price(#[trigger] closes_above(p, avg)[i]) by {
            if i < a.len() {
                assert(closes_above(p, avg)[i] == a[i]);
            }
        }
        assert forall|i: int| 0 <= i < closes_below(p, avg).len() implies plain_price(#[trigger] closes_below(p, avg)[i]) by {
            if i < b.len() {
                assert(closes_below(p, avg)[i] == b[i]);
            }
        }
    }
}

/// What `BigDecimal`'s `Display` prints for `unscaled × 10^-scale`.
pub uninterp spec fn big_decimal_rendering(unscaled: int, scale: int) -> Seq<char>;

/// `BigDecimal::new(unscaled, scale).to_string()`.
/// Claimed: the result is [`big_decimal_rendering`] of the number's parts.
#[verifier::external_body]
pub(crate) fn decimal_to_string(d: &Decimal) -> (r: String)
    requires
        wf(*d),
    ensures
        r@ == big_decimal_rendering(d@.0, d@.1),
{
    BigDecimal::new(d.unscaled.parse::<BigInt>().unwrap(), d.scale).to_string()
}

/// What `BigDecimal::from_str` makes of `text`: its unscaled integer and its
/// scale, or `None` when the text is refused.
pub uninterp spec fn big_decimal_parts(text: Seq<char>) -> Option<(int, int)>;

/// `BigDecimal::from_str`, taken apart with `as_bigint_and_exponent`.
/// Claimed: the result is [`big_decimal_parts`] of the text, and the unscaled
/// integer is written as `BigInt`'s `Display` writes it (an optional `-`,
/// then digits); nothing more is said of what the parser accepts.
#[verifier::external_body]
pub(crate) fn parse_big_decimal(text: &str) -> (r: Option<Decimal>)
    ensures
        match r {
            Some(d) => wf(d) && big_decimal_parts(text@) == Some(d@),
            None => big_decimal_parts(text@) is None,
        },
{
    match <BigDecimal as core::str::FromStr>::from_str(text) {
        Ok(d) => {
            let (digits, scale) = d.as_bigint_and_exponent();
            Some(Decimal { unscaled: digits.to_string(), scale })
        },
        Err(_) => None,
    }
}

/// The text parses as a decimal above zero.
pub open spec fn text_is_positive(text: Seq<char>) -> bool {
    big_decimal_parts(text) matches Some(v) && v.0 > 0
}

/// A decimal is above zero exactly when its unscaled integer is.
pub proof fn lemma_above_zero(v: (int, int))
    ensures
        value_lt((0int, 0int), v) <==> v.0 > 0,
{
    let p = pow10(shift((0int, 0int)));
    lemma_pow10_pos(shift((0int, 0int)));
    lemma_pow10_pos(shift(v));
    assert(v.0 * p > 0 <==> v.0 > 0) by (nonlinear_arith)
        requires p >= 1;
}

/// Whether the decimal is above zero.
pub fn is_positive(d: &Decimal) -> (r: bool)
    requires
        wf(*d),
    ensures
        r == (d@.0 > 0),
{
    let zero = zero_decimal();
    proof {
        lemma_above_zero(d@);
    }
    decimal_lt(&zero, d)
}

/// Whether the text parses as a decimal above zero.
pub fn decimal_text_positive(text: &str) -> (r: bool)
    ensures
        r == text_is_positive(text@),
{
    match parse_big_decimal(text) {
        Some(d) => is_positive(&d),
        None => false,
    }
}

/// The decimal the text denotes, when `BigDecimal` parses it.
pub fn parse_decimal(text: &str) -> (r: Option<Decimal>)
    ensures
        match r {
            Some(d) => wf(d) && big_decimal_parts(text@) == Some(d@),
            None => big_decimal_parts(text@) is None,
        },
{
    parse_big_decimal(text)
}

/// Whether the unscaled integer is well written (see [`wf`]).
pub fn decimal_wf(d: &Decimal) -> (r: bool)
    ensures
        r == wf(*d),
{
    let s = crate::text::chars_of(d.unscaled.as_str());
    let start: usize = if s.len() > 0 && s[0] == '-' { 1 } else { 0 };
    let ghost body = if start == 1 { s@.drop_first() } else { s@ };
    assert(body =~= s@.skip(start as int));
    if start == s.len() {
        assert(!all_digits(s@.skip(start as int)));
        assert(s@.len() > 0 ==> s@.skip(1) =~= s@.drop_first());
        assert(s@.skip(0) =~= s@);
        return false;
    }
    let mut k: usize = start;
    while k < s.len()
        invariant
            start <= k <= s.len(),
            start < s.len(),
            body == s@.skip(start as int),
            start == (if s@.len() > 0 && s@[0] == '-' { 1usize } else { 0usize }),
            body == (if start == 1 { s@.drop_first() } else { s@ }),
            s@ == d.unscaled@,
            forall|j: int| start <= j < k ==> crate::text::is_digit(#[trigger] s@[j]),
        decreases s.len() - k,
    {
        if !('0' <= s[k] && s[k] <= '9') {
            assert(!crate::text::is_digit(s@[k as int]));
            assert(s@.len() > 0 ==> s@.skip(1) =~= s@.drop_first());
            assert(s@.skip(0) =~= s@);
            assert(body[k - start] == s@[k as int]);
            assert(!all_digits(body));
            return false;
        }
        k += 1;
    }
    assert(s@.len() > 0 ==> s@.skip(1) =~= s@.drop_first());
    assert(s@.skip(0) =~= s@);
    assert forall|j: int| 0 <= j < s@.skip(start as int).len() implies crate::text::is_digit(#[trigger] s@.skip(start as int)[j]) by {
        assert(s@.skip(start as int)[j] == s@[j + start]);
    }
    true
}

} // verus!
