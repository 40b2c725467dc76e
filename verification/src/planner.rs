use vstd::prelude::*;

use vstd::arithmetic::div_mod::{
    lemma_div_is_ordered, lemma_div_multiples_vanish, lemma_div_of0, lemma_div_pos_is_pos,
    lemma_fundamental_div_mod, lemma_fundamental_div_mod_converse_div,
    lemma_mod_division_less_than_divisor, lemma_mod_multiples_vanish, lemma_small_mod,
};
use vstd::arithmetic::mul::{
    lemma_mul_inequality, lemma_mul_is_commutative, lemma_mul_is_distributive_add,
    lemma_mul_upper_bound,
};

verus! {

/// One contiguous byte range of the resource, immutable once planned.
/// Segment `index` covers offsets `[start_offset, start_offset + length)`.
#[derive(Debug, Clone, Copy, PartialEq, Eq, Structural)]
pub struct Segment {
    pub index: usize,
    pub start_offset: u64,
    pub length: u64,
}

/// The planner coerces a requested thread count to a minimum of one.
pub open spec fn effective_threads(threads: usize) -> int {
    if threads == 0 {
        1
    } else {
        threads as int
    }
}

/// Start offset of segment `i`: `floor(i * total_size / threads)`.
pub open spec fn segment_start(total_size: u64, threads: int, i: int) -> int {
    i * total_size / threads
}

/// Length of segment `i`: every non-last segment gets
/// `floor(total_size / threads)`; the last segment runs to the end of the
/// resource and so absorbs the remainder.
pub open spec fn segment_length(total_size: u64, threads: int, i: int) -> int {
    if i == threads - 1 {
        total_size - segment_start(total_size, threads, i)
    } else {
        total_size as int / threads
    }
}

/// The full planned segment list for a resource of `total_size` bytes split
/// across `threads` workers.
pub open spec fn planned_segments(total_size: u64, threads: usize) -> Seq<Segment> {
    let t = effective_threads(threads);
    Seq::new(
        t as nat,
        |i: int|
            Segment {
                index: i as usize,
                start_offset: segment_start(total_size, t, i) as u64,
                length: segment_length(total_size, t, i) as u64,
            },
    )
}

/// Sum of the lengths of a list of segments.
pub open spec fn total_planned(segments: Seq<Segment>) -> int
    decreases segments.len(),
{
    if segments.len() == 0 {
        0
    } else {
        total_planned(segments.drop_last()) + segments.last().length
    }
}

/// Every planned start offset lies inside `[0, total_size]`.
proof fn lemma_start_in_range(total_size: u64, threads: int, i: int)
    requires
        threads >= 1,
        0 <= i <= threads,
    ensures
        0 <= segment_start(total_size, threads, i) <= total_size,
{
    lemma_mul_inequality(0, i, total_size as int);
    lemma_div_pos_is_pos(i * total_size, threads);
    lemma_mul_inequality(i, threads, total_size as int);
    lemma_div_is_ordered(i * total_size, threads * total_size, threads);
    lemma_mul_is_commutative(threads, total_size as int);
    lemma_div_multiples_vanish(total_size as int, threads);
}

/// Floor division distributes over addition up to one unit: the sum of the
/// quotients never exceeds the quotient of the sum, and the two agree
/// exactly when the remainders do not wrap past the divisor.
proof fn lemma_floor_add(a: int, b: int, t: int)
    requires
        t >= 1,
        a >= 0,
        b >= 0,
    ensures
        a / t + b / t <= (a + b) / t,
        a % t + b % t < t ==> a / t + b / t == (a + b) / t,
{
    lemma_fundamental_div_mod(a, t);
    lemma_fundamental_div_mod(b, t);
    lemma_mod_division_less_than_divisor(a, t);
    lemma_mod_division_less_than_divisor(b, t);
    let q = a / t + b / t;
    let r = a % t + b % t;
    lemma_mul_is_distributive_add(t, a / t, b / t);
    assert(a + b == t * q + r);
    lemma_mul_is_commutative(t, q);
    if r < t {
        lemma_fundamental_div_mod_converse_div(a + b, t, q, r);
    } else {
        lemma_mul_is_distributive_add(t, q, 1);
        lemma_mul_is_commutative(t, q + 1);
        lemma_fundamental_div_mod_converse_div(a + b, t, q + 1, r - t);
    }
}

/// A non-last segment ends no later than the next segment starts; when the
/// division remainder is at most one, it ends exactly where the next one
/// starts.
proof fn lemma_adjacent_segments(total_size: u64, threads: int, i: int)
    requires
        threads >= 1,
        0 <= i < threads - 1,
    ensures
        segment_start(total_size, threads, i) + total_size as int / threads <= segment_start(
            total_size,
            threads,
            i + 1,
        ),
        total_size as int % threads <= 1 ==> segment_start(total_size, threads, i)
            + total_size as int / threads == segment_start(total_size, threads, i + 1),
{
    let s = total_size as int;
    lemma_mul_inequality(0, i, s);
    lemma_mul_is_commutative(i + 1, s);
    lemma_mul_is_distributive_add(s, i, 1);
    lemma_mul_is_commutative(i, s);
    assert((i + 1) * s == i * s + s);
    lemma_floor_add(i * s, s, threads);
    if s % threads <= 1 {
        lemma_fundamental_div_mod(s, threads);
        let q = s / threads;
        let r = s % threads;
        lemma_mod_division_less_than_divisor(s, threads);
        if r == 0 {
            assert(i * s == threads * (i * q)) by (nonlinear_arith)
                requires
                    s == threads * q,
            ;
            lemma_mod_multiples_vanish(i * q, 0, threads);
            lemma_small_mod(0, threads as nat);
            assert(i * s % threads == 0);
        } else {
            assert(i * s == threads * (i * q) + i) by (nonlinear_arith)
                requires
                    s == threads * q + 1,
            ;
            lemma_mod_multiples_vanish(i * q, i, threads);
            lemma_small_mod(i as nat, threads as nat);
            assert(i * s % threads == i);
        }
        assert(i * s % threads + s % threads < threads);
    }
}

/// The segments of any plan are sorted by start offset and pairwise
/// non-overlapping: an earlier segment ends no later than any later segment
/// begins, and every segment lies inside `[0, total_size]`.
///
/// This holds for every `total_size` and every thread count.
pub proof fn lemma_plan_disjoint_sorted(total_size: u64, threads: usize)
    ensures
        forall|i: int, j: int|
            #![trigger planned_segments(total_size, threads)[i], planned_segments(total_size, threads)[j]]
            0 <= i < j < planned_segments(total_size, threads).len()
                ==> planned_segments(total_size, threads)[i].start_offset + planned_segments(
                total_size,
                threads,
            )[i].length <= planned_segments(total_size, threads)[j].start_offset,
        forall|i: int|
            0 <= i < planned_segments(total_size, threads).len()
                ==> #[trigger] (planned_segments(total_size, threads)[i].start_offset
                + planned_segments(total_size, threads)[i].length) <= total_size,
{
    let t = effective_threads(threads);
    let p = planned_segments(total_size, threads);
    assert forall|i: int| 0 <= i < p.len() implies #[trigger] (p[i].start_offset + p[i].length)
        <= total_size by {
        lemma_segment_in_range(total_size, threads, i);
    }
    assert forall|i: int, j: int|
        #![trigger p[i], p[j]]
        0 <= i < j < p.len() implies p[i].start_offset + p[i].length <= p[j].start_offset by {
        lemma_segment_in_range(total_size, threads, i);
        lemma_segment_in_range(total_size, threads, j);
        lemma_adjacent_segments(total_size, t, i);
        lemma_start_in_range(total_size, t, i + 1);
        lemma_mul_inequality(i + 1, j, total_size as int);
        lemma_div_is_ordered((i + 1) * total_size, j * total_size, t);
    }
}

/// Each planned segment, read back at the integer level: its index is its
/// position, its bounds match the planning formulas, and it fits inside the
/// resource.
pub proof fn lemma_segment_in_range(total_size: u64, threads: usize, i: int)
    requires
        0 <= i < planned_segments(total_size, threads).len(),
    ensures
        planned_segments(total_size, threads)[i].index == i,
        planned_segments(total_size, threads)[i].start_offset == segment_start(
            total_size,
            effective_threads(threads),
            i,
        ),
        planned_segments(total_size, threads)[i].length == segment_length(
            total_size,
            effective_threads(threads),
            i,
        ),
        planned_segments(total_size, threads)[i].start_offset + planned_segments(
            total_size,
            threads,
        )[i].length <= total_size,
{
    let t = effective_threads(threads);
    lemma_start_in_range(total_size, t, i);
    if i == t - 1 {
        assert(segment_length(total_size, t, i) == total_size - segment_start(total_size, t, i));
    } else {
        lemma_start_in_range(total_size, t, i + 1);
        lemma_adjacent_segments(total_size, t, i);
        lemma_div_pos_is_pos(total_size as int, t);
    }
}

/// The first `k` segments of a plan whose remainder is at most one unit
/// together reach exactly segment `k`'s start offset.
proof fn lemma_prefix_sum(total_size: u64, threads: usize, k: int)
    requires
        total_size as int % effective_threads(threads) <= 1,
        0 <= k <= effective_threads(threads) - 1,
    ensures
        total_planned(planned_segments(total_size, threads).take(k)) == segment_start(
            total_size,
            effective_threads(threads),
            k,
        ),
    decreases k,
{
    let t = effective_threads(threads);
    let p = planned_segments(total_size, threads);
    if k == 0 {
        assert(p.take(0) =~= Seq::<Segment>::empty());
        assert(0 * total_size == 0);
        lemma_div_of0(t);
    } else {
        lemma_prefix_sum(total_size, threads, k - 1);
        assert(p.take(k).drop_last() =~= p.take(k - 1));
        assert(p.take(k).last() == p[k - 1]);
        lemma_segment_in_range(total_size, threads, k - 1);
        lemma_adjacent_segments(total_size, t, k - 1);
    }
}

/// Whenever the planning remainder is at most one unit (in particular for
/// any evenly divisible size and for any thread count of one or two), the
/// plan partitions the resource exactly: the first segment starts at zero,
/// every segment ends exactly where the next begins, the last segment ends
/// at `total_size`, and the segment lengths sum to `total_size`.
pub proof fn lemma_plan_contiguous_covers(total_size: u64, threads: usize)
    requires
        total_size as int % effective_threads(threads) <= 1,
    ensures
        planned_segments(total_size, threads).len() == effective_threads(threads),
        planned_segments(total_size, threads)[0].start_offset == 0,
        forall|i: int|
            #![trigger planned_segments(total_size, threads)[i]]
            0 <= i < planned_segments(total_size, threads).len() - 1 ==> planned_segments(
                total_size,
                threads,
            )[i].start_offset + planned_segments(total_size, threads)[i].length
                == planned_segments(total_size, threads)[i + 1].start_offset,
        planned_segments(total_size, threads).last().start_offset + planned_segments(
            total_size,
            threads,
        ).last().length == total_size,
        total_planned(planned_segments(total_size, threads)) == total_size,
{
    let t = effective_threads(threads);
    let p = planned_segments(total_size, threads);
    lemma_segment_in_range(total_size, threads, 0);
    assert(0 * total_size == 0);
    lemma_div_of0(t);
    assert(p[0].start_offset == 0);
    assert forall|i: int|
        #![trigger p[i]]
        0 <= i < p.len() - 1 implies p[i].start_offset + p[i].length == p[i
        + 1].start_offset by {
        lemma_segment_in_range(total_size, threads, i);
        lemma_segment_in_range(total_size, threads, i + 1);
        lemma_adjacent_segments(total_size, t, i);
    }
    lemma_segment_in_range(total_size, threads, t - 1);
    assert(p.last().start_offset + p.last().length == total_size);
    lemma_prefix_sum(total_size, threads, t - 1);
    assert(p.drop_last() =~= p.take(t - 1));
    assert(total_planned(p) == total_planned(p.take(t - 1)) + p.last().length);
}

/// With a single worker, the plan is exactly one segment covering the
/// whole of `[0, total_size)`.
pub proof fn lemma_single_thread_covers(total_size: u64)
    ensures
        planned_segments(total_size, 1).len() == 1,
        planned_segments(total_size, 1)[0] == (Segment {
            index: 0,
            start_offset: 0,
            length: total_size,
        }),
{
    assert(0 * total_size == 0);
    lemma_div_of0(1);
}

/// Planning is a pure function of its inputs: two plans made from the same
/// `total_size` and `threads` are the same segment list. The executable
/// planner's postcondition pins its result to `planned_segments`, so any
/// two calls with identical inputs return identical segment lists.
pub proof fn lemma_planning_pure(
    total_size: u64,
    threads: usize,
    first: Seq<Segment>,
    second: Seq<Segment>,
)
    requires
        first == planned_segments(total_size, threads),
        second == planned_segments(total_size, threads),
    ensures
        first == second,
{
}

/// Divide `[0, total_size)` into `max(threads, 1)` contiguous segments:
/// segment `i` starts at `floor(i * total_size / threads)`, every non-last
/// segment is `floor(total_size / threads)` bytes long, and the last
/// segment runs to the end of the resource, absorbing the remainder. Pure
/// computation with no failure modes.
pub fn plan_segments(total_size: u64, threads: usize) -> (segments: Vec<Segment>)
    ensures
        segments@ == planned_segments(total_size, threads),
{
    let t: usize = if threads == 0 {
        1
    } else {
        threads
    };
    let mut segments: Vec<Segment> = Vec::new();
    let mut i: usize = 0;
    while i < t
        invariant
            1 <= t,
            t as int == effective_threads(threads),
            i <= t,
            segments@.len() == i as int,
            forall|k: int|
                0 <= k < i as int ==> segments@[k] == planned_segments(total_size, threads)[k],
        decreases t - i,
    {
        proof {
            lemma_start_in_range(total_size, t as int, i as int);
            lemma_mul_upper_bound(i as int, u64::MAX as int, total_size as int, u64::MAX as int);
            lemma_segment_in_range(total_size, threads, i as int);
        }
        let start_wide: u128 = (i as u128) * (total_size as u128) / (t as u128);
        let start: u64 = start_wide as u64;
        let length: u64 = if i + 1 == t {
            total_size - start
        } else {
            total_size / (t as u64)
        };
        segments.push(Segment { index: i, start_offset: start, length });
        i = i + 1;
    }
    proof {
        assert(segments@ =~= planned_segments(total_size, threads));
    }
    segments
}

} // verus!
