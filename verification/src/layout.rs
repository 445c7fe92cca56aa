//! How a horizontal stack spreads the room that its children leave.
//!
//! The children keep their measured widths. The room that is left of the available width
//! is divided evenly between the gaps, rounding towards zero, and what the rounding leaves
//! over goes to the last gap. Children that are wider than the available width are not
//! refused: the gaps become negative and the children overlap.

use vstd::prelude::*;
use crate::arith::{lemma_quotient_towards_zero, quotient_towards_zero};
use crate::geometry::{LEVEL_SPAN, MAX_EXTENT, MAX_ITEMS};

verus! {

/// The widths as mathematical integers.
pub open spec fn ints(widths: Seq<i64>) -> Seq<int> {
    widths.map_values(|w: i64| w as int)
}

/// Sum of a sequence of integers.
pub open spec fn sum(values: Seq<int>) -> int
    decreases values.len(),
{
    if values.len() == 0 {
        0
    } else {
        sum(values.drop_last()) + values.last()
    }
}

/// Room that the children leave of the available width; negative when they overflow it.
pub open spec fn extra_room(available: int, widths: Seq<int>) -> int {
    available - sum(widths)
}

/// Number of gaps between the children.
pub open spec fn gap_count(widths: Seq<int>) -> int {
    widths.len() - 1
}

/// The gap that every pair of neighbours gets at least.
pub open spec fn base_gap(available: int, widths: Seq<int>) -> int {
    quotient_towards_zero(extra_room(available, widths), gap_count(widths))
}

/// What is left of the available width once every gap has the base gap.
pub open spec fn remainder(available: int, widths: Seq<int>) -> int {
    available - (sum(widths) + gap_count(widths) * base_gap(available, widths))
}

/// The gap that follows child `i`: the base gap, and for the last gap also the remainder
/// where that is positive.
pub open spec fn gap_after(available: int, widths: Seq<int>, i: int) -> int {
    if i == gap_count(widths) - 1 && remainder(available, widths) > 0 {
        base_gap(available, widths) + remainder(available, widths)
    } else {
        base_gap(available, widths)
    }
}

/// All gaps of a stack, in order. A stack of fewer than two children has none.
pub open spec fn gaps(available: int, widths: Seq<int>) -> Seq<int> {
    if widths.len() < 2 {
        Seq::empty()
    } else {
        Seq::new((widths.len() - 1) as nat, |i: int| gap_after(available, widths, i))
    }
}

/// Distance from the stack's origin to the left edge of child `i`: the widths of the
/// children before it and the gaps that follow them.
pub open spec fn offset(available: int, widths: Seq<int>, i: int) -> int
    decreases i,
{
    if i <= 0 {
        0
    } else {
        offset(available, widths, i - 1) + widths[i - 1] + gap_after(available, widths, i - 1)
    }
}

/// The widths are those of at most `MAX_ITEMS` widgets, none negative and none beyond
/// `MAX_EXTENT`.
pub open spec fn measurable(widths: Seq<int>) -> bool {
    &&& widths.len() <= MAX_ITEMS
    &&& forall|i: int| 0 <= i < widths.len() ==> 0 <= #[trigger] widths[i] <= MAX_EXTENT
}

pub proof fn lemma_sum_bounds(values: Seq<int>, bound: int)
    requires
        forall|i: int| 0 <= i < values.len() ==> 0 <= #[trigger] values[i] <= bound,
    ensures
        0 <= sum(values) <= values.len() * bound,
    decreases values.len(),
{
    if values.len() > 0 {
        lemma_sum_bounds(values.drop_last(), bound);
        assert(values.len() * bound == (values.len() - 1) * bound + bound) by (nonlinear_arith);
    }
}

pub proof fn lemma_sum_push(values: Seq<int>, value: int)
    ensures
        sum(values.push(value)) == sum(values) + value,
{
    assert(values.push(value).drop_last() =~= values);
}

/// Computes the gaps between the children of a horizontal stack from their widths.
pub fn distribute(available: i64, widths: &Vec<i64>) -> (result: Vec<i64>)
    requires
        0 <= available <= MAX_EXTENT,
        measurable(ints(widths@)),
    ensures
        ints(result@) == gaps(available as int, ints(widths@)),
{
    let n: usize = widths.len();
    let mut result: Vec<i64> = Vec::new();
    if n < 2 {
        assert(ints(result@) =~= gaps(available as int, ints(widths@)));
        return result;
    }
    let ghost ws = ints(widths@);
    let mut total: i64 = 0;
    let mut i: usize = 0;
    while i < n
        invariant
            i <= n,
            n == widths.len(),
            n <= MAX_ITEMS,
            ws == ints(widths@),
            measurable(ws),
            total == sum(ws.take(i as int)),
            0 <= total <= i * MAX_EXTENT,
        decreases n - i,
    {
        proof {
            assert(ws.take(i as int + 1) =~= ws.take(i as int).push(ws[i as int]));
            lemma_sum_push(ws.take(i as int), ws[i as int]);
            assert((i + 1) * MAX_EXTENT == i * MAX_EXTENT + MAX_EXTENT) by (nonlinear_arith);
            assert(i * MAX_EXTENT <= MAX_ITEMS * MAX_EXTENT) by (nonlinear_arith)
                requires
                    i <= MAX_ITEMS,
            ;
        }
        total = total + widths[i];
        i += 1;
    }
    proof {
        assert(ws.take(n as int) =~= ws);
        assert(n * MAX_EXTENT <= MAX_ITEMS * MAX_EXTENT) by (nonlinear_arith)
            requires
                n <= MAX_ITEMS,
        ;
    }
    let count: i64 = (n - 1) as i64;
    let extra: i64 = available - total;
    let base: i64 = if extra >= 0 {
        extra / count
    } else {
        -((-extra) / count)
    };
    proof {
        lemma_quotient_towards_zero(extra as int, count as int);
        assert(base == base_gap(available as int, ws));
    }
    assert(-extra <= count * base <= extra || extra <= count * base <= -extra) by (nonlinear_arith)
        requires
            extra >= 0 ==> 0 <= extra - count * base < count,
            extra <= 0 ==> -count < extra - count * base <= 0,
            count > 0,
    ;
    let rest: i64 = available - (total + count * base);
    assert(rest == remainder(available as int, ws));
    let mut k: usize = 0;
    while k < n - 1
        invariant
            k <= n - 1,
            n >= 2,
            n == widths.len(),
            ws == ints(widths@),
            base == base_gap(available as int, ws),
            rest == remainder(available as int, ws),
            result@.len() == k,
            forall|j: int| 0 <= j < k ==> (#[trigger] result@[j]) as int == gap_after(available as int, ws, j),
            -(count as int) < rest < count,
            count == n - 1,
            i64::MIN < base + rest < i64::MAX,
        decreases n - 1 - k,
    {
        if k == n - 2 && rest > 0 {
            result.push(base + rest);
        } else {
            result.push(base);
        }
        k += 1;
    }
    assert(ints(result@) =~= gaps(available as int, ws));
    result
}

/// The gaps of a stack add up to the room that its children leave, the last gap taking
/// what rounding left over. This holds where the room is not negative, or is a multiple
/// of the number of gaps; where overflowing children leave a negative room that the gaps
/// cannot share evenly, the gaps add up to less overlap than the overflow.
pub proof fn lemma_gaps_fill_extra_room(available: int, widths: Seq<int>)
    requires
        widths.len() >= 2,
        extra_room(available, widths) >= 0 || extra_room(available, widths) % gap_count(widths) == 0,
    ensures
        sum(gaps(available, widths)) == extra_room(available, widths),
        forall|i: int| 0 <= i < gap_count(widths) - 1 ==> gaps(available, widths)[i] == base_gap(available, widths),
        gaps(available, widths).last() == base_gap(available, widths) + remainder(available, widths),
{
    let count = gap_count(widths);
    let extra = extra_room(available, widths);
    let base = base_gap(available, widths);
    let rest = remainder(available, widths);
    let g = gaps(available, widths);
    lemma_quotient_towards_zero(extra, count);
    assert(rest == extra - count * base);
    if extra < 0 {
        let m = -extra;
        let q = extra / count;
        vstd::arithmetic::div_mod::lemma_fundamental_div_mod(extra, count);
        assert(m == (-q) * count) by (nonlinear_arith)
            requires
                extra == count * q,
                m == -extra,
        ;
        vstd::arithmetic::div_mod::lemma_mod_multiples_basic(-q, count);
        vstd::arithmetic::div_mod::lemma_fundamental_div_mod(m, count);
        assert(count * (-(m / count)) == -(count * (m / count))) by (nonlinear_arith);
        assert(rest == 0);
    }
    assert(rest >= 0);
    lemma_sum_of_gaps(available, widths, count - 1);
    assert(g.take(count - 1).push(g[count - 1]) =~= g);
    lemma_sum_push(g.take(count - 1), g[count - 1]);
    assert(count * base == (count - 1) * base + base) by (nonlinear_arith);
}

/// Where child `i` stands, in closed form: after the widths of the children before it and
/// as many base gaps, and after the remainder too if every gap lies before it.
pub proof fn lemma_offset_closed_form(available: int, widths: Seq<int>, i: int)
    requires
        widths.len() >= 2,
        0 <= i <= gap_count(widths),
    ensures
        offset(available, widths, i) == sum(widths.take(i)) + i * base_gap(available, widths) + (if i
            == gap_count(widths) && remainder(available, widths) > 0 {
            remainder(available, widths)
        } else {
            0
        }),
    decreases i,
{
    let base = base_gap(available, widths);
    if i > 0 {
        lemma_offset_closed_form(available, widths, i - 1);
        assert(widths.take(i) =~= widths.take(i - 1).push(widths[i - 1]));
        lemma_sum_push(widths.take(i - 1), widths[i - 1]);
        assert(i * base == (i - 1) * base + base) by (nonlinear_arith);
    } else {
        assert(widths.take(0) =~= Seq::<int>::empty());
        assert(0 * base == 0) by (nonlinear_arith);
    }
}

/// No child of a stack of measurable widgets stands farther from the stack's origin than
/// one level of stacking allows for.
pub proof fn lemma_offset_bounds(available: int, widths: Seq<int>, i: int)
    requires
        measurable(widths),
        0 <= available <= MAX_EXTENT,
        0 <= i < widths.len(),
    ensures
        -LEVEL_SPAN <= offset(available, widths, i) <= LEVEL_SPAN - MAX_EXTENT,
{
    if widths.len() >= 2 {
        let count = gap_count(widths);
        let extra = extra_room(available, widths);
        let base = base_gap(available, widths);
        let rest = remainder(available, widths);
        lemma_offset_closed_form(available, widths, i);
        lemma_quotient_towards_zero(extra, count);
        lemma_sum_bounds(widths, MAX_EXTENT as int);
        lemma_sum_bounds(widths.take(i), MAX_EXTENT as int);
        assert(widths.len() * MAX_EXTENT <= MAX_ITEMS * MAX_EXTENT) by (nonlinear_arith)
            requires
                widths.len() <= MAX_ITEMS,
        ;
        assert(i * MAX_EXTENT <= MAX_ITEMS * MAX_EXTENT) by (nonlinear_arith)
            requires
                0 <= i <= MAX_ITEMS,
        ;
        assert(-(MAX_ITEMS * MAX_EXTENT) <= extra <= MAX_EXTENT);
        assert((extra >= 0 ==> 0 <= i * base <= extra) && (extra <= 0 ==> extra <= i * base <= 0))
            by (nonlinear_arith)
            requires
                0 <= i <= count,
                extra >= 0 ==> 0 <= extra - count * base < count && base >= 0,
                extra <= 0 ==> -count < extra - count * base <= 0 && base <= 0,
        ;
        assert(rest == extra - count * base);
    }
}

/// The first `n` gaps, none of them the last, add up to `n` base gaps.
proof fn lemma_sum_of_gaps(available: int, widths: Seq<int>, n: int)
    requires
        widths.len() >= 2,
        0 <= n <= gap_count(widths) - 1,
    ensures
        sum(gaps(available, widths).take(n)) == n * base_gap(available, widths),
    decreases n,
{
    let g = gaps(available, widths);
    let base = base_gap(available, widths);
    if n > 0 {
        lemma_sum_of_gaps(available, widths, n - 1);
        assert(g.take(n) =~= g.take(n - 1).push(g[n - 1]));
        lemma_sum_push(g.take(n - 1), g[n - 1]);
        assert(g[n - 1] == base);
        assert(n * base == (n - 1) * base + base) by (nonlinear_arith);
    } else {
        assert(g.take(0) =~= Seq::<int>::empty());
        assert(sum(g.take(0)) == 0);
        assert(0 * base == 0) by (nonlinear_arith);
    }
}

} // verus!
