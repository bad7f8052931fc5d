//! Ratio resolver: shares an extent among sibling panes.
//!
//! Every pane has a floor (its minimum size, at least one cell). A pane with a
//! fixed size starts at that size, a flexible pane starts at its floor. Space
//! left over is shared among the flexible panes by weight; when the panes ask
//! for more than there is, they are shrunk until the sizes add up to the
//! extent exactly.
use vstd::arithmetic::div_mod::lemma_fundamental_div_mod_converse;
use vstd::prelude::*;

verus! {

/// Sizing rule of one pane along the split axis.
#[derive(Clone, Copy, Debug)]
pub struct Constraint {
    /// Fixed extent; a pane that has one is not flexible.
    pub fixed: Option<usize>,
    /// Size below which shrinking prefers not to go.
    pub minimum: usize,
    /// Weight of a flexible pane.
    pub ratio: usize,
}

impl Constraint {
    /// The minimum in effect: never below one cell.
    pub open spec fn floor(self) -> int {
        if self.minimum >= 1 {
            self.minimum as int
        } else {
            1
        }
    }

    /// Whether the pane takes part in the sharing of spare space.
    pub open spec fn flexible(self) -> bool {
        self.fixed is None
    }

    /// The weight in effect: zero for a fixed pane, else at least one.
    pub open spec fn weight(self) -> int {
        if self.fixed is Some {
            0
        } else if self.ratio >= 1 {
            self.ratio as int
        } else {
            1
        }
    }

    /// The size a pane starts with.
    pub open spec fn base(self) -> int {
        match self.fixed {
            Some(f) => if f as int >= self.floor() {
                f as int
            } else {
                self.floor()
            },
            None => self.floor(),
        }
    }
}

/// Sum of a sequence of integers.
pub open spec fn total_of(s: Seq<int>) -> int
    decreases s.len(),
{
    if s.len() == 0 {
        0
    } else {
        total_of(s.drop_last()) + s.last()
    }
}

/// A sequence of machine sizes read as integers.
pub open spec fn ints(v: Seq<usize>) -> Seq<int> {
    Seq::new(v.len(), |i: int| v[i] as int)
}

pub open spec fn floors(cs: Seq<Constraint>) -> Seq<int> {
    Seq::new(cs.len(), |i: int| cs[i].floor())
}

pub open spec fn bases(cs: Seq<Constraint>) -> Seq<int> {
    Seq::new(cs.len(), |i: int| cs[i].base())
}

pub open spec fn weights(cs: Seq<Constraint>) -> Seq<int> {
    Seq::new(cs.len(), |i: int| cs[i].weight())
}

pub open spec fn zeros(n: nat) -> Seq<int> {
    Seq::new(n, |i: int| 0int)
}

/// `a / b` rounded to the nearest integer, a half rounded up
/// (for `a >= 0` and `b > 0`).
pub open spec fn round_half_up(a: int, b: int) -> int {
    (2 * a + b) / (2 * b)
}

/// Space left once every pane has its starting size; zero when there is none.
pub open spec fn spare(total: int, cs: Seq<Constraint>) -> int {
    let rest = total - total_of(bases(cs));
    if rest > 0 {
        rest
    } else {
        0
    }
}

/// The share of `room` that pane `i` gets by its weight, rounded.
pub open spec fn rounded_share(cs: Seq<Constraint>, room: int, i: int) -> int {
    round_half_up(cs[i].weight() * room, total_of(weights(cs)))
}

/// Sum of the rounded shares of the panes before `i`.
pub open spec fn rounded_before(cs: Seq<Constraint>, room: int, i: int) -> int
    decreases i,
{
    if i <= 0 {
        0
    } else {
        rounded_before(cs, room, i - 1) + rounded_share(cs, room, i - 1)
    }
}

/// Whether pane `i` is the last flexible one.
pub open spec fn last_flexible(cs: Seq<Constraint>, i: int) -> bool {
    cs[i].flexible() && forall|j: int| i < j < cs.len() ==> !(#[trigger] cs[j]).flexible()
}

/// What pane `i` gets of `room`: a flexible pane its rounded share, except the
/// last flexible pane, which gets what the others left.
pub open spec fn extra(cs: Seq<Constraint>, room: int, i: int) -> int {
    if !cs[i].flexible() {
        0
    } else if last_flexible(cs, i) {
        let rest = room - rounded_before(cs, room, i);
        if rest > 0 {
            rest
        } else {
            0
        }
    } else {
        rounded_share(cs, room, i)
    }
}

/// Sizes after the spare space has been handed out. With flexible panes it
/// goes to them by weight; with none it is dealt out one cell at a time, from
/// the first pane on, round and round.
pub open spec fn grown(total: int, cs: Seq<Constraint>) -> Seq<int> {
    let room = spare(total, cs);
    let n = cs.len() as int;
    Seq::new(
        cs.len(),
        |i: int|
            if room > 0 && total_of(weights(cs)) > 0 {
                cs[i].base() + extra(cs, room, i)
            } else if room > 0 {
                cs[i].base() + room / n + if i < room % n {
                    1int
                } else {
                    0int
                }
            } else {
                cs[i].base()
            },
    )
}

/// One sweep over the panes, from position `step` on: each pane still above
/// its limit loses one cell, until `excess` cells have been taken. A reverse
/// sweep starts at the last pane, a forward sweep at the first.
pub open spec fn sweep(
    sizes: Seq<int>,
    limits: Seq<int>,
    step: int,
    excess: int,
    reverse: bool,
) -> Seq<int>
    decreases sizes.len() - step,
{
    if step < 0 || step >= sizes.len() || excess <= 0 {
        sizes
    } else {
        let at = if reverse {
            sizes.len() - 1 - step
        } else {
            step
        };
        if sizes[at] > limits[at] {
            sweep(sizes.update(at, sizes[at] - 1), limits, step + 1, excess - 1, reverse)
        } else {
            sweep(sizes, limits, step + 1, excess, reverse)
        }
    }
}

/// Sweep after sweep, until `excess` cells have been taken or a sweep finds
/// no pane above its limit.
pub open spec fn shrink(sizes: Seq<int>, limits: Seq<int>, excess: int, reverse: bool) -> Seq<int>
    decreases excess,
    via shrink_terminates
{
    let next = sweep(sizes, limits, 0, excess, reverse);
    let removed = total_of(sizes) - total_of(next);
    if excess <= 0 || removed <= 0 || sizes.len() != limits.len() {
        sizes
    } else {
        shrink(next, limits, excess - removed, reverse)
    }
}

#[via_fn]
proof fn shrink_terminates(sizes: Seq<int>, limits: Seq<int>, excess: int, reverse: bool) {
    if sizes.len() == limits.len() {
        lemma_sweep(sizes, limits, 0, excess, reverse);
    }
}

/// Sizes that add up to at most `total`: reverse sweeps that respect the
/// floors first, then, if the floors alone are too much, forward sweeps that
/// respect nothing but zero.
pub open spec fn clamped(sizes: Seq<int>, limits: Seq<int>, total: int) -> Seq<int> {
    let over = total_of(sizes) - total;
    if over <= 0 {
        sizes
    } else {
        let kept = shrink(sizes, limits, over, true);
        let still = total_of(kept) - total;
        if still <= 0 {
            kept
        } else {
            shrink(kept, zeros(sizes.len()), still, false)
        }
    }
}

/// The resolved size of every pane.
pub open spec fn resolved(total: int, cs: Seq<Constraint>) -> Seq<int> {
    clamped(grown(total, cs), floors(cs), total)
}

pub proof fn lemma_total_update(s: Seq<int>, i: int, v: int)
    requires
        0 <= i < s.len(),
    ensures
        total_of(s.update(i, v)) == total_of(s) - s[i] + v,
    decreases s.len(),
{
    let u = s.update(i, v);
    if i == s.len() - 1 {
        assert(u.drop_last() =~= s.drop_last());
    } else {
        lemma_total_update(s.drop_last(), i, v);
        assert(u.drop_last() =~= s.drop_last().update(i, v));
    }
}

/// Of two sequences where one is nowhere above the other, the sums compare
/// the same way.
pub proof fn lemma_total_monotone(a: Seq<int>, b: Seq<int>)
    requires
        a.len() == b.len(),
        forall|i: int| 0 <= i < a.len() ==> a[i] <= b[i],
    ensures
        total_of(a) <= total_of(b),
    decreases a.len(),
{
    if a.len() > 0 {
        lemma_total_monotone(a.drop_last(), b.drop_last());
    }
}

/// No entry of a sequence without negative entries is above the sum.
pub proof fn lemma_total_bounds(s: Seq<int>, i: int)
    requires
        forall|k: int| 0 <= k < s.len() ==> s[k] >= 0,
        0 <= i < s.len(),
    ensures
        0 <= s[i] <= total_of(s),
    decreases s.len(),
{
    lemma_total_nonnegative(s.drop_last());
    if i < s.len() - 1 {
        lemma_total_bounds(s.drop_last(), i);
    }
}

pub proof fn lemma_total_nonnegative(s: Seq<int>)
    requires
        forall|k: int| 0 <= k < s.len() ==> s[k] >= 0,
    ensures
        total_of(s) >= 0,
    decreases s.len(),
{
    if s.len() > 0 {
        lemma_total_nonnegative(s.drop_last());
    }
}

pub proof fn lemma_total_zeros(n: nat)
    ensures
        total_of(zeros(n)) == 0,
    decreases n,
{
    if n > 0 {
        assert(zeros(n).drop_last() =~= zeros((n - 1) as nat));
        lemma_total_zeros((n - 1) as nat);
    }
}

/// What a sweep does: every pane keeps its size or loses one cell, and loses
/// one only where it was above its limit; at most `excess` cells go; and at
/// least one goes where cells are to be taken and a pane not yet visited is
/// above its limit.
pub proof fn lemma_sweep(sizes: Seq<int>, limits: Seq<int>, step: int, excess: int, reverse: bool)
    requires
        sizes.len() == limits.len(),
        0 <= step,
    ensures
        ({
            let out = sweep(sizes, limits, step, excess, reverse);
            let removed = total_of(sizes) - total_of(out);
            &&& out.len() == sizes.len()
            &&& forall|i: int|
                0 <= i < sizes.len() ==> (out[i] == sizes[i] || (out[i] == sizes[i] - 1 && sizes[i]
                    > limits[i]))
            &&& forall|i: int|
                0 <= i < sizes.len() && !sweep_visits(sizes.len() as int, step, reverse, i)
                    ==> out[i] == sizes[i]
            &&& 0 <= removed
            &&& removed <= if excess > 0 {
                excess
            } else {
                0
            }
            &&& (excess > 0 && (exists|p: int|
                0 <= p < sizes.len() && sweep_visits(sizes.len() as int, step, reverse, p)
                    && sizes[p] > limits[p])) ==> removed >= 1
        }),
    decreases sizes.len() - step,
{
    if step >= sizes.len() || excess <= 0 {
    } else {
        let at = if reverse {
            sizes.len() - 1 - step
        } else {
            step
        };
        if sizes[at] > limits[at] {
            let mid = sizes.update(at, sizes[at] - 1);
            lemma_sweep(mid, limits, step + 1, excess - 1, reverse);
            lemma_total_update(sizes, at, sizes[at] - 1);
        } else {
            lemma_sweep(sizes, limits, step + 1, excess, reverse);
            let out = sweep(sizes, limits, step, excess, reverse);
            if exists|p: int|
                0 <= p < sizes.len() && sweep_visits(sizes.len() as int, step, reverse, p)
                    && sizes[p] > limits[p] {
                let p = choose|p: int|
                    0 <= p < sizes.len() && sweep_visits(sizes.len() as int, step, reverse, p)
                        && sizes[p] > limits[p];
                assert(p != at);
                assert(sweep_visits(sizes.len() as int, step + 1, reverse, p));
            }
        }
    }
}

/// Whether a sweep over `n` panes that stands at `step` still comes to
/// position `p`.
pub open spec fn sweep_visits(n: int, step: int, reverse: bool, p: int) -> bool {
    if reverse {
        p <= n - 1 - step
    } else {
        p >= step
    }
}

/// What shrinking does: no pane grows, none goes below its limit unless it
/// was there already, at most `excess` cells go, and where fewer go no pane
/// is left above its limit.
pub proof fn lemma_shrink(sizes: Seq<int>, limits: Seq<int>, excess: int, reverse: bool)
    requires
        sizes.len() == limits.len(),
    ensures
        ({
            let out = shrink(sizes, limits, excess, reverse);
            let removed = total_of(sizes) - total_of(out);
            &&& out.len() == sizes.len()
            &&& forall|i: int|
                0 <= i < sizes.len() ==> out[i] <= sizes[i] && (out[i] >= limits[i] || out[i]
                    == sizes[i])
            &&& 0 <= removed
            &&& removed <= if excess > 0 {
                excess
            } else {
                0
            }
            &&& (excess > 0 && removed < excess) ==> forall|i: int|
                0 <= i < sizes.len() ==> out[i] <= limits[i]
        }),
    decreases excess,
{
    let next = sweep(sizes, limits, 0, excess, reverse);
    let removed = total_of(sizes) - total_of(next);
    lemma_sweep(sizes, limits, 0, excess, reverse);
    if excess <= 0 {
    } else if removed <= 0 {
        assert forall|i: int| 0 <= i < sizes.len() implies sizes[i] <= limits[i] by {
            if sizes[i] > limits[i] {
                assert(sweep_visits(sizes.len() as int, 0, reverse, i));
            }
        }
    } else {
        lemma_shrink(next, limits, excess - removed, reverse);
    }
}

proof fn lemma_ints_update(v: Seq<usize>, i: int, x: usize)
    requires
        0 <= i < v.len(),
    ensures
        ints(v.update(i, x)) == ints(v).update(i, x as int),
{
    assert(ints(v.update(i, x)) =~= ints(v).update(i, x as int));
}

/// The limits that a shrinking pass respects: the floors, or zero.
pub open spec fn limits_of(mins: Seq<usize>, honor: bool) -> Seq<int> {
    if honor {
        ints(mins)
    } else {
        zeros(mins.len())
    }
}

/// Takes up to `excess` cells from `sizes` in sweeps: reverse sweeps that
/// stop at the floors when `honor` is set, forward sweeps that stop at zero
/// otherwise. Returns how many cells are still to be taken.
fn shrink_sizes(sizes: &mut Vec<usize>, mins: &[usize], honor: bool, excess: u128) -> (left: u128)
    requires
        old(sizes).len() == mins.len(),
    ensures
        ints(final(sizes)@) == shrink(ints(old(sizes)@), limits_of(mins@, honor), excess as int, honor),
        left as int == excess as int - (total_of(ints(old(sizes)@)) - total_of(ints(final(sizes)@))),
{
    let n = sizes.len();
    let ghost limits = limits_of(mins@, honor);
    let ghost target = shrink(ints(sizes@), limits, excess as int, honor);
    let ghost first = ints(sizes@);
    let mut left = excess;
    let mut moving = true;
    while left > 0 && moving
        invariant
            sizes.len() == n,
            mins.len() == n,
            limits == limits_of(mins@, honor),
            limits.len() == n,
            shrink(ints(sizes@), limits, left as int, honor) == target,
            !moving ==> shrink(ints(sizes@), limits, left as int, honor) == ints(sizes@),
            left as int == excess as int - (total_of(first) - total_of(ints(sizes@))),
        decreases left + if moving { 1int } else { 0int },
    {
        let before = left;
        let ghost start = ints(sizes@);
        let mut step: usize = 0;
        while step < n && left > 0
            invariant
                step <= n,
                sizes.len() == n,
                mins.len() == n,
                limits == limits_of(mins@, honor),
                limits.len() == n,
                start.len() == n,
                left <= before,
                sweep(ints(sizes@), limits, step as int, left as int, honor) == sweep(
                    start,
                    limits,
                    0,
                    before as int,
                    honor,
                ),
                before - left == total_of(start) - total_of(ints(sizes@)),
                left == before ==> ints(sizes@) == start,
            decreases n - step,
        {
            let at = if honor {
                n - 1 - step
            } else {
                step
            };
            let limit = if honor {
                mins[at]
            } else {
                0
            };
            if sizes[at] > limit {
                let lowered = sizes[at] - 1;
                proof {
                    lemma_total_update(ints(sizes@), at as int, lowered as int);
                    lemma_ints_update(sizes@, at as int, lowered);
                }
                sizes.set(at, lowered);
                left = left - 1;
            }
            step = step + 1;
        }
        moving = left < before;
    }
    left
}

/// Brings the sum of `sizes` down to `total` where it is above it. Reverse
/// sweeps take one cell from every pane above its minimum; if the sum is
/// still too large when none is, forward sweeps take cells from any pane that
/// has one left.
pub fn clamp_sizes(sizes: Vec<usize>, mins: &[usize], total: usize) -> (out: Vec<usize>)
    requires
        sizes.len() == mins.len(),
    ensures
        ints(out@) == clamped(ints(sizes@), ints(mins@), total as int),
{
    let mut sizes = sizes;
    let sum = sum_sizes(&sizes);
    if sum <= total as u128 {
        return sizes;
    }
    let ghost first = ints(sizes@);
    proof {
        lemma_shrink(first, ints(mins@), sum - total, true);
    }
    let still = shrink_sizes(&mut sizes, mins, true, sum - total as u128);
    if still > 0 {
        let _ = shrink_sizes(&mut sizes, mins, false, still);
    }
    sizes
}

/// The sum of `sizes`, in a type wide enough to hold it.
pub fn sum_sizes(sizes: &Vec<usize>) -> (sum: u128)
    ensures
        sum as int == total_of(ints(sizes@)),
{
    let mut sum: u128 = 0;
    let mut i: usize = 0;
    while i < sizes.len()
        invariant
            i <= sizes.len(),
            sum as int == total_of(ints(sizes@).take(i as int)),
            sum <= i * usize::MAX,
        decreases sizes.len() - i,
    {
        proof {
            let all = ints(sizes@);
            assert(all.take(i + 1).drop_last() =~= all.take(i as int));
            assert(i * usize::MAX + usize::MAX == (i + 1) * usize::MAX) by (nonlinear_arith);
            assert(i * usize::MAX + usize::MAX <= usize::MAX * usize::MAX + usize::MAX)
                by (nonlinear_arith)
                requires
                    i <= usize::MAX,
            ;
        }
        sum = sum + sizes[i] as u128;
        i = i + 1;
    }
    proof {
        assert(ints(sizes@).take(sizes.len() as int) =~= ints(sizes@));
    }
    sum
}

proof fn lemma_round_zero(b: int)
    requires
        b > 0,
    ensures
        round_half_up(0, b) == 0,
{
    assert((2 * 0 + b) / (2 * b) == 0) by (nonlinear_arith)
        requires
            b > 0,
    ;
}

/// A rounded share of `room` is never negative and never more than `room`.
pub proof fn lemma_round_bounded(w: int, room: int, sum: int)
    requires
        0 <= w <= sum,
        0 < sum,
        0 <= room,
    ensures
        0 <= round_half_up(w * room, sum) <= room,
{
    assert(0 <= (2 * (w * room) + sum) / (2 * sum) <= room) by (nonlinear_arith)
        requires
            0 <= w <= sum,
            0 < sum,
            0 <= room,
    ;
}

proof fn lemma_weights(cs: Seq<Constraint>, i: int)
    requires
        0 <= i < cs.len(),
    ensures
        0 <= cs[i].weight() <= total_of(weights(cs)),
        1 <= cs[i].base() <= total_of(bases(cs)),
        cs[i].flexible() ==> total_of(weights(cs)) > 0,
{
    lemma_total_bounds(weights(cs), i);
    lemma_total_bounds(bases(cs), i);
}

proof fn lemma_rounded_before(cs: Seq<Constraint>, room: int, i: int)
    requires
        0 <= i <= cs.len(),
        0 <= room,
        total_of(weights(cs)) > 0,
    ensures
        0 <= rounded_before(cs, room, i) <= i * room,
    decreases i,
{
    if i > 0 {
        lemma_rounded_before(cs, room, i - 1);
        lemma_weights(cs, i - 1);
        lemma_round_bounded(cs[i - 1].weight(), room, total_of(weights(cs)));
        assert((i - 1) * room + room == i * room) by (nonlinear_arith);
    }
}

/// What one pane gets of the spare space is never negative and never more
/// than the spare space.
pub proof fn lemma_extra_bounded(cs: Seq<Constraint>, room: int, i: int)
    requires
        0 <= i < cs.len(),
        0 <= room,
        total_of(weights(cs)) > 0,
    ensures
        0 <= extra(cs, room, i) <= room,
{
    lemma_weights(cs, i);
    lemma_round_bounded(cs[i].weight(), room, total_of(weights(cs)));
    lemma_rounded_before(cs, room, i);
}

/// `weight / total_weight` of `room`, rounded to the nearest integer with a
/// half rounded up.
///
/// Calls `num_rational::Ratio`: `new`, the product with an integer, `round`
/// and `to_integer`, on 128-bit integers, in which no step overflows for
/// arguments that came from `usize` values. `round` rounds a half away from
/// zero, which for a ratio that is not negative is up.
#[verifier::external_body]
fn weighted_share(weight: usize, total_weight: u128, room: usize) -> (share: usize)
    requires
        0 < weight <= total_weight,
        total_weight <= usize::MAX * usize::MAX,
    ensures
        share as int == round_half_up(weight as int * room as int, total_weight as int),
{
    let part = num_rational::Ratio::new(weight as u128, total_weight);
    (part * (room as u128)).round().to_integer() as usize
}

/// Resolves the size of every pane for an extent of `total` cells.
///
/// Every pane starts at its fixed size or its floor. Spare space goes to the
/// flexible panes by weight, each share rounded, the last flexible pane taking
/// what is left; without flexible panes it is dealt out one cell at a time.
/// Sizes that add up to more than `total` are then brought down by
/// [`clamp_sizes`].
pub fn ratio_resolve(total: usize, constraints: &[Constraint]) -> (sizes: Vec<usize>)
    ensures
        ints(sizes@) == resolved(total as int, constraints@),
{
    let n = constraints.len();
    let ghost cs = constraints@;
    let mut sizes: Vec<usize> = Vec::new();
    if n == 0 {
        proof {
            assert(grown(total as int, cs) =~= Seq::<int>::empty());
            assert(ints(sizes@) =~= Seq::<int>::empty());
        }
        return sizes;
    }
    let mut mins: Vec<usize> = Vec::new();
    let mut shares: Vec<usize> = Vec::new();
    let mut base_total: u128 = 0;
    let mut weight_total: u128 = 0;
    let mut last: usize = 0;
    let mut i: usize = 0;
    while i < n
        invariant
            i <= n,
            n == constraints.len(),
            cs == constraints@,
            sizes.len() == i,
            mins.len() == i,
            shares.len() == i,
            ints(sizes@) == bases(cs).take(i as int),
            ints(mins@) == floors(cs).take(i as int),
            ints(shares@) == weights(cs).take(i as int),
            base_total as int == total_of(bases(cs).take(i as int)),
            weight_total as int == total_of(weights(cs).take(i as int)),
            base_total <= i * usize::MAX,
            weight_total <= i * usize::MAX,
            weight_total > 0 ==> last < i && cs[last as int].flexible() && forall|j: int|
                last < j < i ==> !(#[trigger] cs[j]).flexible(),
            weight_total == 0 ==> forall|j: int| 0 <= j < i ==> !(#[trigger] cs[j]).flexible(),
        decreases n - i,
    {
        let c = constraints[i];
        let floor = if c.minimum >= 1 {
            c.minimum
        } else {
            1
        };
        let (size, weight) = match c.fixed {
            Some(f) => (
                if f >= floor {
                    f
                } else {
                    floor
                },
                0usize,
            ),
            None => (
                floor,
                if c.ratio >= 1 {
                    c.ratio
                } else {
                    1
                },
            ),
        };
        proof {
            assert(bases(cs).take(i + 1).drop_last() =~= bases(cs).take(i as int));
            assert(weights(cs).take(i + 1).drop_last() =~= weights(cs).take(i as int));
            assert(i * usize::MAX + usize::MAX == (i + 1) * usize::MAX) by (nonlinear_arith);
            assert(i * usize::MAX + usize::MAX <= usize::MAX * usize::MAX + usize::MAX)
                by (nonlinear_arith)
                requires
                    i <= usize::MAX,
            ;
            lemma_total_nonnegative(weights(cs).take(i as int));
        }
        if weight > 0 {
            last = i;
        }
        sizes.push(size);
        mins.push(floor);
        shares.push(weight);
        base_total = base_total + size as u128;
        weight_total = weight_total + weight as u128;
        proof {
            assert(ints(sizes@) =~= bases(cs).take(i + 1));
            assert(ints(mins@) =~= floors(cs).take(i + 1));
            assert(ints(shares@) =~= weights(cs).take(i + 1));
        }
        i = i + 1;
    }
    proof {
        assert(bases(cs).take(n as int) =~= bases(cs));
        assert(floors(cs).take(n as int) =~= floors(cs));
        assert(weights(cs).take(n as int) =~= weights(cs));
        assert(n * usize::MAX <= usize::MAX * usize::MAX) by (nonlinear_arith)
            requires
                n <= usize::MAX,
        ;
    }
    let room: usize = if base_total >= total as u128 {
        0
    } else {
        (total as u128 - base_total) as usize
    };
    assert(room as int == spare(total as int, cs));
    assert forall|j: int| 0 <= j < n implies sizes[j] as int == cs[j].base() by {
        assert(ints(sizes@)[j] == bases(cs)[j]);
    }
    let ghost want = grown(total as int, cs);
    if room > 0 && weight_total > 0 {
        assert(last_flexible(cs, last as int));
        let mut handed: u128 = 0;
        let mut i: usize = 0;
        while i < n
            invariant
                i <= n,
                n == cs.len(),
                sizes.len() == n,
                shares.len() == n,
                ints(shares@) == weights(cs),
                want == grown(total as int, cs),
                room as int == spare(total as int, cs),
                room > 0,
                weight_total as int == total_of(weights(cs)),
                weight_total > 0,
                weight_total <= usize::MAX * usize::MAX,
                total as int == total_of(bases(cs)) + room,
                last < n,
                last_flexible(cs, last as int),
                forall|j: int| 0 <= j < i ==> sizes[j] as int == want[j],
                forall|j: int| i <= j < n ==> sizes[j] as int == cs[j].base(),
                i <= last ==> handed as int == rounded_before(cs, room as int, i as int),
                handed <= i * room,
            decreases n - i,
        {
            proof {
                lemma_weights(cs, i as int);
                lemma_extra_bounded(cs, room as int, i as int);
                lemma_rounded_before(cs, room as int, i as int);
                assert(i * room + room == (i + 1) * room) by (nonlinear_arith);
                assert((i + 1) * room <= usize::MAX * usize::MAX) by (nonlinear_arith)
                    requires
                        i + 1 <= usize::MAX,
                        room <= usize::MAX,
                ;
                assert(shares[i as int] as int == weights(cs)[i as int]);
                if !cs[i as int].flexible() {
                    lemma_round_zero(total_of(weights(cs)));
                    assert(cs[i as int].weight() * room == 0) by (nonlinear_arith)
                        requires
                            cs[i as int].weight() == 0,
                    ;
                }
            }
            if shares[i] > 0 {
                let share = if i == last {
                    if handed >= room as u128 {
                        0
                    } else {
                        (room as u128 - handed) as usize
                    }
                } else {
                    weighted_share(shares[i], weight_total, room)
                };
                assert(share as int == extra(cs, room as int, i as int));
                sizes.set(i, sizes[i] + share);
                handed = handed + share as u128;
            }
            i = i + 1;
        }
        assert(ints(sizes@) =~= want);
    } else if room > 0 {
        let mut dealt: usize = 0;
        let mut at: usize = 0;
        let ghost mut laps: int = 0;
        while dealt < room
            invariant
                dealt <= room,
                n == cs.len(),
                n > 0,
                sizes.len() == n,
                at < n,
                0 <= laps,
                dealt as int == laps * n + at,
                total as int == total_of(bases(cs)) + room,
                forall|j: int|
                    0 <= j < n ==> sizes[j] as int == cs[j].base() + laps + if j < at {
                        1int
                    } else {
                        0int
                    },
            decreases room - dealt,
        {
            proof {
                lemma_weights(cs, at as int);
                assert(laps <= dealt) by (nonlinear_arith)
                    requires
                        dealt as int == laps * n + at,
                        n > 0,
                        0 <= laps,
                ;
            }
            sizes.set(at, sizes[at] + 1);
            dealt = dealt + 1;
            if at + 1 == n {
                at = 0;
                proof {
                    assert((laps + 1) * n == laps * n + n) by (nonlinear_arith);
                    laps = laps + 1;
                }
            } else {
                at = at + 1;
            }
        }
        proof {
            lemma_fundamental_div_mod_converse(room as int, n as int, laps, at as int);
            assert(ints(sizes@) =~= want);
        }
    } else {
        assert(ints(sizes@) =~= want);
    }
    clamp_sizes(sizes, mins.as_slice(), total)
}

/// What every pane gets of `room`, pane by pane.
pub open spec fn extras(cs: Seq<Constraint>, room: int) -> Seq<int> {
    Seq::new(cs.len(), |i: int| extra(cs, room, i))
}

proof fn lemma_total_add(a: Seq<int>, b: Seq<int>, c: Seq<int>)
    requires
        a.len() == b.len(),
        a.len() == c.len(),
        forall|i: int| 0 <= i < a.len() ==> c[i] == a[i] + b[i],
    ensures
        total_of(c) == total_of(a) + total_of(b),
    decreases a.len(),
{
    if a.len() > 0 {
        lemma_total_add(a.drop_last(), b.drop_last(), c.drop_last());
    }
}

proof fn lemma_total_take_step(s: Seq<int>, i: int)
    requires
        0 <= i < s.len(),
    ensures
        total_of(s.take(i + 1)) == total_of(s.take(i)) + s[i],
{
    assert(s.take(i + 1).drop_last() =~= s.take(i));
}

/// The position of the last flexible pane, where there is a flexible pane.
proof fn lemma_find_last_flexible(cs: Seq<Constraint>, upto: int) -> (last: int)
    requires
        0 <= upto <= cs.len(),
        exists|k: int| 0 <= k < upto && (#[trigger] cs[k]).flexible(),
        forall|j: int| upto <= j < cs.len() ==> !(#[trigger] cs[j]).flexible(),
    ensures
        0 <= last < cs.len(),
        last_flexible(cs, last),
    decreases upto,
{
    if cs[upto - 1].flexible() {
        upto - 1
    } else {
        lemma_find_last_flexible(cs, upto - 1)
    }
}

proof fn lemma_some_flexible(cs: Seq<Constraint>, n: int)
    requires
        0 <= n <= cs.len(),
        total_of(weights(cs).take(n)) > 0,
    ensures
        exists|k: int| 0 <= k < n && (#[trigger] cs[k]).flexible(),
    decreases n,
{
    if n > 0 {
        lemma_total_take_step(weights(cs), n - 1);
        if !cs[n - 1].flexible() {
            lemma_some_flexible(cs, n - 1);
        }
    }
}

proof fn lemma_extras_prefix(cs: Seq<Constraint>, room: int, last: int, i: int)
    requires
        0 <= i <= cs.len(),
        0 <= last < cs.len(),
        last_flexible(cs, last),
        0 <= room,
    ensures
        total_of(extras(cs, room).take(i)) == if i <= last {
            rounded_before(cs, room, i)
        } else {
            rounded_before(cs, room, last) + extra(cs, room, last)
        },
    decreases i,
{
    if i > 0 {
        lemma_extras_prefix(cs, room, last, i - 1);
        lemma_total_take_step(extras(cs, room), i - 1);
        lemma_weights(cs, last);
        if !cs[i - 1].flexible() {
            lemma_round_zero(total_of(weights(cs)));
            assert(cs[i - 1].weight() * room == 0) by (nonlinear_arith)
                requires
                    cs[i - 1].weight() == 0,
            ;
        }
    }
}

/// With a flexible pane, the sizes after sharing add up to the starting sizes,
/// the rounded shares of the panes before the last flexible one, and what
/// that pane gets.
proof fn lemma_grown_total_flexible(total: int, cs: Seq<Constraint>) -> (last: int)
    requires
        spare(total, cs) > 0,
        total_of(weights(cs)) > 0,
    ensures
        0 <= last < cs.len(),
        last_flexible(cs, last),
        total_of(grown(total, cs)) == total_of(bases(cs)) + rounded_before(
            cs,
            spare(total, cs),
            last,
        ) + extra(cs, spare(total, cs), last),
{
    let room = spare(total, cs);
    assert(weights(cs).take(cs.len() as int) =~= weights(cs));
    lemma_some_flexible(cs, cs.len() as int);
    let last = lemma_find_last_flexible(cs, cs.len() as int);
    lemma_extras_prefix(cs, room, last, cs.len() as int);
    assert(extras(cs, room).take(cs.len() as int) =~= extras(cs, room));
    lemma_total_add(bases(cs), extras(cs, room), grown(total, cs));
    last
}

proof fn lemma_dealt_prefix(s: Seq<int>, q: int, r: int, i: int)
    requires
        0 <= i <= s.len(),
        0 <= r,
        forall|j: int| 0 <= j < s.len() ==> s[j] == q + if j < r { 1int } else { 0int },
    ensures
        total_of(s.take(i)) == i * q + if i < r { i } else { r },
    decreases i,
{
    if i > 0 {
        lemma_dealt_prefix(s, q, r, i - 1);
        lemma_total_take_step(s, i - 1);
        assert((i - 1) * q + q == i * q) by (nonlinear_arith);
        assert(s[i - 1] == q + if i - 1 < r { 1int } else { 0int });
    } else {
        assert(i * q == 0) by (nonlinear_arith)
            requires
                i == 0,
        ;
    }
}

/// The sizes after sharing are nowhere below the starting sizes and add up
/// to at least `total`; they add up to `total` exactly where there is spare
/// space and the rounded shares do not overrun it.
pub proof fn lemma_grown(total: int, cs: Seq<Constraint>)
    requires
        0 <= total,
        cs.len() > 0,
    ensures
        grown(total, cs).len() == cs.len(),
        forall|i: int| 0 <= i < cs.len() ==> grown(total, cs)[i] >= cs[i].base(),
        total_of(grown(total, cs)) >= total,
        spare(total, cs) > 0 && total_of(weights(cs)) == 0 ==> total_of(grown(total, cs)) == total,
{
    let room = spare(total, cs);
    let n = cs.len() as int;
    let g = grown(total, cs);
    if room > 0 && total_of(weights(cs)) > 0 {
        let last = lemma_grown_total_flexible(total, cs);
        lemma_rounded_before(cs, room, last);
        assert forall|i: int| 0 <= i < cs.len() implies g[i] >= cs[i].base() by {
            lemma_extra_bounded(cs, room, i);
        }
    } else if room > 0 {
        let q = room / n;
        let r = room % n;
        let d = Seq::new(cs.len(), |j: int| q + if j < r { 1int } else { 0int });
        vstd::arithmetic::div_mod::lemma_fundamental_div_mod(room, n);
        vstd::arithmetic::div_mod::lemma_mod_bound(room, n);
        vstd::arithmetic::div_mod::lemma_div_pos_is_pos(room, n);
        lemma_dealt_prefix(d, q, r, n);
        assert(d.take(n) =~= d);
        lemma_total_add(bases(cs), d, g);
        assert(n * q == n * (room / n)) by (nonlinear_arith)
            requires
                q == room / n,
        ;
    } else {
        assert(g =~= bases(cs));
    }
}

/// The resolved sizes of a list of panes that is not empty add up to the
/// extent, whatever the constraints.
pub proof fn law_exact_coverage(total: int, cs: Seq<Constraint>)
    requires
        0 <= total,
        cs.len() > 0,
    ensures
        resolved(total, cs).len() == cs.len(),
        total_of(resolved(total, cs)) == total,
        forall|i: int| 0 <= i < cs.len() ==> 0 <= #[trigger] resolved(total, cs)[i],
{
    let g = grown(total, cs);
    let fl = floors(cs);
    lemma_grown(total, cs);
    let over = total_of(g) - total;
    assert forall|i: int| 0 <= i < cs.len() implies g[i] >= 1 by {
        lemma_weights(cs, i);
    }
    if over > 0 {
        lemma_shrink(g, fl, over, true);
        let kept = shrink(g, fl, over, true);
        let still = total_of(kept) - total;
        assert forall|i: int| 0 <= i < cs.len() implies kept[i] >= 1 by {
            assert(fl[i] == cs[i].floor());
        }
        if still > 0 {
            let z = zeros(g.len());
            lemma_shrink(kept, z, still, false);
            let out = shrink(kept, z, still, false);
            let removed = total_of(kept) - total_of(out);
            if removed < still {
                lemma_total_monotone(out, z);
                lemma_total_zeros(g.len());
            }
        }
    }
}

/// Where the extent holds the floors of all panes, no resolved size is
/// below its pane's floor, hence none below its minimum.
pub proof fn law_minimum_respected(total: int, cs: Seq<Constraint>)
    requires
        cs.len() > 0,
        total_of(floors(cs)) <= total,
    ensures
        forall|i: int|
            0 <= i < cs.len() ==> (#[trigger] resolved(total, cs)[i]) >= cs[i].floor()
                && resolved(total, cs)[i] >= cs[i].minimum,
{
    let g = grown(total, cs);
    let fl = floors(cs);
    assert(total >= 0) by {
        assert forall|k: int| 0 <= k < fl.len() implies fl[k] >= 0 by {}
        lemma_total_nonnegative(fl);
    }
    lemma_grown(total, cs);
    let over = total_of(g) - total;
    assert forall|i: int| 0 <= i < cs.len() implies g[i] >= fl[i] by {
        lemma_weights(cs, i);
    }
    if over > 0 {
        lemma_shrink(g, fl, over, true);
        let kept = shrink(g, fl, over, true);
        let still = total_of(kept) - total;
        if still > 0 {
            lemma_total_monotone(kept, fl);
        }
        assert forall|i: int| 0 <= i < cs.len() implies (#[trigger] resolved(total, cs)[i])
            >= cs[i].floor() by {
            assert(fl[i] == cs[i].floor());
            assert(g[i] >= fl[i]);
        }
    } else {
        assert forall|i: int| 0 <= i < cs.len() implies (#[trigger] resolved(total, cs)[i])
            >= cs[i].floor() by {
            assert(fl[i] == cs[i].floor());
            assert(g[i] >= fl[i]);
        }
    }
}

/// Rounding moves a quotient by at most a half.
pub proof fn lemma_round_near(a: int, b: int)
    requires
        0 <= a,
        0 < b,
    ensures
        -b <= 2 * (round_half_up(a, b) * b - a) <= b,
{
    let q = (2 * a + b) / (2 * b);
    assert(0 <= (2 * a + b) - (2 * b) * q < 2 * b) by (nonlinear_arith)
        requires
            q == (2 * a + b) / (2 * b),
            0 < b,
    ;
    assert((2 * b) * q == 2 * (q * b)) by (nonlinear_arith);
}

/// Whether every pane is flexible.
pub open spec fn all_flexible(cs: Seq<Constraint>) -> bool {
    forall|i: int| 0 <= i < cs.len() ==> (#[trigger] cs[i]).flexible()
}

/// By how much the rounded shares of the panes before `i`, taken together,
/// are off their exact shares, in units of one over the sum of the weights.
pub open spec fn rounding_drift(cs: Seq<Constraint>, room: int, i: int) -> int {
    rounded_before(cs, room, i) * total_of(weights(cs)) - room * total_of(weights(cs).take(i))
}

/// The rounded shares of `i` panes are together off by at most `i` halves.
pub proof fn lemma_rounding_drift(cs: Seq<Constraint>, room: int, i: int)
    requires
        0 <= i <= cs.len(),
        0 <= room,
        total_of(weights(cs)) > 0,
    ensures
        -i * total_of(weights(cs)) <= 2 * rounding_drift(cs, room, i) <= i * total_of(weights(cs)),
    decreases i,
{
    let sum = total_of(weights(cs));
    if i > 0 {
        lemma_rounding_drift(cs, room, i - 1);
        lemma_total_take_step(weights(cs), i - 1);
        lemma_weights(cs, i - 1);
        let w = cs[i - 1].weight();
        let r = rounded_share(cs, room, i - 1);
        let b = rounded_before(cs, room, i - 1);
        let t = total_of(weights(cs).take(i - 1));
        assert(0 <= w * room) by (nonlinear_arith)
            requires
                0 <= w,
                0 <= room,
        ;
        lemma_round_near(w * room, sum);
        assert(rounding_drift(cs, room, i) == rounding_drift(cs, room, i - 1) + (r * sum - w
            * room)) by (nonlinear_arith)
            requires
                rounding_drift(cs, room, i) == (b + r) * sum - room * (t + w),
                rounding_drift(cs, room, i - 1) == b * sum - room * t,
        ;
        assert((i - 1) * sum + sum == i * sum) by (nonlinear_arith);
        assert(-(i - 1) * sum - sum == -i * sum) by (nonlinear_arith);
    } else {
        assert(weights(cs).take(0) =~= Seq::<int>::empty());
        assert(i * sum == 0 && -i * sum == 0 && rounding_drift(cs, room, i) == 0)
            by (nonlinear_arith)
            requires
                i == 0,
                rounding_drift(cs, room, i) == 0 * sum - room * 0,
        ;
    }
}

/// Among flexible panes only, with `room` cells over the floors to hand
/// out, every pane gets its exact share `room * weight / sum of weights` to
/// within one cell, and what the panes get adds up to `room`. This holds where the rounded shares of the panes before the last
/// are together off their exact shares by at most one cell; the last pane
/// takes what they leave, so it is off by as much as they are together.
pub proof fn law_ratio_proportional(total: int, cs: Seq<Constraint>)
    requires
        cs.len() > 0,
        all_flexible(cs),
        total_of(floors(cs)) <= total,
        -total_of(weights(cs)) <= rounding_drift(cs, total - total_of(floors(cs)), cs.len() - 1)
            <= total_of(weights(cs)),
    ensures
        total_of(resolved(total, cs)) - total_of(floors(cs)) == total - total_of(floors(cs)),
        forall|i: int|
            0 <= i < cs.len() ==> -total_of(weights(cs)) <= (#[trigger] resolved(total, cs)[i]
                - cs[i].floor()) * total_of(weights(cs)) - (total - total_of(floors(cs)))
                * cs[i].weight() <= total_of(weights(cs)),
{
    let n = cs.len() as int;
    let sum = total_of(weights(cs));
    let room = total - total_of(floors(cs));
    let g = grown(total, cs);
    assert(bases(cs) =~= floors(cs));
    assert(room == spare(total, cs));
    lemma_weights(cs, n - 1);
    assert(total >= 0) by {
        assert forall|k: int| 0 <= k < floors(cs).len() implies floors(cs)[k] >= 0 by {}
        lemma_total_nonnegative(floors(cs));
    }
    lemma_grown(total, cs);
    if room > 0 {
        let last = lemma_grown_total_flexible(total, cs);
        assert(last == n - 1) by {
            if last < n - 1 {
                assert(cs[n - 1].flexible());
            }
        }
        let before = rounded_before(cs, room, n - 1);
        let wl = cs[n - 1].weight();
        lemma_total_take_step(weights(cs), n - 1);
        assert(weights(cs).take(n) =~= weights(cs));
        assert(total_of(weights(cs).take(n - 1)) == sum - wl);
        assert(before <= room) by (nonlinear_arith)
            requires
                before * sum - room * (sum - wl) <= sum,
                wl >= 1,
                room >= 1,
                sum > 0,
        ;
        assert(total_of(g) == total);
        assert(resolved(total, cs) == g);
        assert forall|i: int| 0 <= i < cs.len() implies -sum <= (#[trigger] resolved(
            total,
            cs,
        )[i] - cs[i].floor()) * sum - room * cs[i].weight() <= sum by {
            lemma_weights(cs, i);
            let w = cs[i].weight();
            assert(g[i] - cs[i].floor() == extra(cs, room, i));
            if i == n - 1 {
                assert(extra(cs, room, i) == room - before);
                assert((room - before) * sum - room * wl == -(before * sum - room * (sum - wl)))
                    by (nonlinear_arith);
            } else {
                assert(!last_flexible(cs, i)) by {
                    assert(cs[n - 1].flexible());
                }
                assert(0 <= w * room) by (nonlinear_arith)
                    requires
                        0 <= w,
                        0 <= room,
                ;
                lemma_round_near(w * room, sum);
                assert(room * w == w * room) by (nonlinear_arith);
            }
        }
    } else {
        assert(g =~= bases(cs));
        assert(resolved(total, cs) == g);
        assert forall|i: int| 0 <= i < cs.len() implies -sum <= (#[trigger] resolved(
            total,
            cs,
        )[i] - cs[i].floor()) * sum - room * cs[i].weight() <= sum by {
            lemma_weights(cs, i);
            assert((g[i] - cs[i].floor()) * sum - room * cs[i].weight() == 0) by (nonlinear_arith)
                requires
                    g[i] - cs[i].floor() == 0,
                    room == 0,
            ;
        }
    }
}

/// Every list of up to three flexible panes shares its room in proportion
/// to the weights, to within one cell: two rounded shares are together off
/// by at most one cell.
pub proof fn law_ratio_proportional_small(total: int, cs: Seq<Constraint>)
    requires
        0 < cs.len() <= 3,
        all_flexible(cs),
        total_of(floors(cs)) <= total,
    ensures
        total_of(resolved(total, cs)) - total_of(floors(cs)) == total - total_of(floors(cs)),
        forall|i: int|
            0 <= i < cs.len() ==> -total_of(weights(cs)) <= (#[trigger] resolved(total, cs)[i]
                - cs[i].floor()) * total_of(weights(cs)) - (total - total_of(floors(cs)))
                * cs[i].weight() <= total_of(weights(cs)),
{
    let n = cs.len() as int;
    let sum = total_of(weights(cs));
    let room = total - total_of(floors(cs));
    lemma_weights(cs, n - 1);
    lemma_rounding_drift(cs, room, n - 1);
    assert(-sum <= rounding_drift(cs, room, n - 1) <= sum) by (nonlinear_arith)
        requires
            -(n - 1) * sum <= 2 * rounding_drift(cs, room, n - 1) <= (n - 1) * sum,
            0 <= n - 1 <= 2,
            sum > 0,
    ;
    law_ratio_proportional(total, cs);
}

/// No part of a sequence without negative entries adds up to more than the
/// whole, and a longer part adds up to no less than a shorter one.
pub proof fn lemma_total_prefix(s: Seq<int>, i: int, j: int)
    requires
        forall|k: int| 0 <= k < s.len() ==> s[k] >= 0,
        0 <= i <= j <= s.len(),
    ensures
        0 <= total_of(s.take(i)) <= total_of(s.take(j)),
        total_of(s.take(s.len() as int)) == total_of(s),
    decreases j - i,
{
    assert(s.take(s.len() as int) =~= s);
    lemma_total_nonnegative(s.take(i));
    if i < j {
        lemma_total_prefix(s, i, j - 1);
        assert(s.take(j).drop_last() =~= s.take(j - 1));
    }
}

/// Whether the extent is too small for the floors of all panes, so that
/// resolving it leaves some pane below its floor. A caller that wants to
/// warn of such a layout asks this.
pub fn minimums_exceed(total: usize, constraints: &[Constraint]) -> (short: bool)
    ensures
        short == (total < total_of(floors(constraints@))),
{
    let ghost fl = floors(constraints@);
    let mut left = total;
    let mut i: usize = 0;
    while i < constraints.len()
        invariant
            i <= constraints.len(),
            fl == floors(constraints@),
            left <= total,
            total - left == total_of(fl.take(i as int)),
        decreases constraints.len() - i,
    {
        let floor = if constraints[i].minimum >= 1 {
            constraints[i].minimum
        } else {
            1
        };
        proof {
            assert(fl.take(i + 1).drop_last() =~= fl.take(i as int));
            assert(fl[i as int] == floor);
            assert forall|k: int| 0 <= k < fl.len() implies fl[k] >= 0 by {}
            lemma_total_prefix(fl, i + 1, fl.len() as int);
        }
        if floor > left {
            return true;
        }
        left = left - floor;
        i = i + 1;
    }
    proof {
        assert(fl.take(fl.len() as int) =~= fl);
    }
    false
}

/// Where the extent is too small for the floors of all panes, some pane is
/// resolved to less than its floor.
pub proof fn law_minimum_violated(total: int, cs: Seq<Constraint>)
    requires
        0 <= total,
        cs.len() > 0,
        total < total_of(floors(cs)),
    ensures
        exists|i: int| 0 <= i < cs.len() && (#[trigger] resolved(total, cs)[i]) < cs[i].floor(),
{
    law_exact_coverage(total, cs);
    let out = resolved(total, cs);
    let fl = floors(cs);
    if forall|i: int| 0 <= i < cs.len() ==> (#[trigger] out[i]) >= fl[i] {
        lemma_total_monotone(fl, out);
    } else {
        let i = choose|i: int| 0 <= i < cs.len() && !((#[trigger] out[i]) >= fl[i]);
        assert(out[i] < cs[i].floor());
    }
}

} // verus!
