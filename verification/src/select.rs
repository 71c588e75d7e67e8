//! Keeping and dropping the highest or lowest dice of a roll.
//!
//! Both go by a pivot: the `k`-th lowest value of the roll, or its `k`-th
//! highest. The roll is walked in the order in which the dice fell, and the
//! first `k` values that reach the pivot are picked; the others are passed
//! over. To keep is to take what was picked, to drop is to take the rest.
//!
//! The walk ends with the `k`-th value that is picked. So where values tie
//! with the pivot, those that fell first are picked, and a value that fell
//! after them is passed over even if it lies beyond the pivot: of the dice
//! `4, 4, 6, 4`, the two highest that are kept are `4, 4`.

use vstd::prelude::*;

verus! {

/// Whether `v` lies at `p` or beyond it: at or below for `lowest`, at or
/// above otherwise.
pub open spec fn reaches(v: u16, p: u16, lowest: bool) -> bool {
    if lowest {
        v <= p
    } else {
        v >= p
    }
}

/// Whether `v` lies strictly beyond `p`.
pub open spec fn beats(v: u16, p: u16, lowest: bool) -> bool {
    if lowest {
        v < p
    } else {
        v > p
    }
}

/// How many of `values` reach `p`.
pub open spec fn reaching(values: Seq<u16>, p: u16, lowest: bool) -> nat
    decreases values.len(),
{
    if values.len() == 0 {
        0
    } else {
        reaching(values.drop_first(), p, lowest) + if reaches(values[0], p, lowest) {
            1nat
        } else {
            0nat
        }
    }
}

/// How many of `values` beat `p`.
pub open spec fn beating(values: Seq<u16>, p: u16, lowest: bool) -> nat
    decreases values.len(),
{
    if values.len() == 0 {
        0
    } else {
        beating(values.drop_first(), p, lowest) + if beats(values[0], p, lowest) {
            1nat
        } else {
            0nat
        }
    }
}

/// Whether `p` is the `k`-th lowest of `values`, or the `k`-th highest: fewer
/// than `k` values beat it, and `k` or more reach it.
pub open spec fn is_pivot(values: Seq<u16>, k: nat, lowest: bool, p: u16) -> bool {
    beating(values, p, lowest) < k <= reaching(values, p, lowest)
}

/// The `k`-th lowest of `values`, or the `k`-th highest, for `k` from one to
/// the number of values.
pub open spec fn pivot_of(values: Seq<u16>, k: nat, lowest: bool) -> u16 {
    choose|p: u16| is_pivot(values, k, lowest, p)
}

/// The first `k` of `values` that reach `p`, in their order.
pub open spec fn picked(values: Seq<u16>, k: nat, p: u16, lowest: bool) -> Seq<u16>
    decreases values.len(),
{
    if values.len() == 0 || k == 0 {
        Seq::empty()
    } else if reaches(values[0], p, lowest) {
        seq![values[0]] + picked(values.drop_first(), (k - 1) as nat, p, lowest)
    } else {
        picked(values.drop_first(), k, p, lowest)
    }
}

/// What is left of `values` without the first `k` that reach `p`, in their order.
pub open spec fn passed(values: Seq<u16>, k: nat, p: u16, lowest: bool) -> Seq<u16>
    decreases values.len(),
{
    if values.len() == 0 {
        Seq::empty()
    } else if k > 0 && reaches(values[0], p, lowest) {
        passed(values.drop_first(), (k - 1) as nat, p, lowest)
    } else {
        seq![values[0]] + passed(values.drop_first(), k, p, lowest)
    }
}

/// The `k` values that are kept: the first `k` that reach the `k`-th highest
/// value, or for `lowest` the `k`-th lowest.
pub open spec fn kept(values: Seq<u16>, k: nat, lowest: bool) -> Seq<u16> {
    picked(values, k, pivot_of(values, k, lowest), lowest)
}

/// The values that stay when `k` are dropped: all but the first `k` that
/// reach the `k`-th lowest value, or for `highest` the `k`-th highest.
pub open spec fn dropped(values: Seq<u16>, k: nat, highest: bool) -> Seq<u16> {
    passed(values, k, pivot_of(values, k, !highest), !highest)
}

/// As many values reach the lowest number as beat the next one, and so on
/// upward; and the other way round for the highest.
proof fn lemma_step(values: Seq<u16>, p: u16, q: u16, lowest: bool)
    requires
        if lowest {
            p + 1 == q
        } else {
            q + 1 == p
        },
    ensures
        reaching(values, p, lowest) == beating(values, q, lowest),
    decreases values.len(),
{
    if values.len() > 0 {
        lemma_step(values.drop_first(), p, q, lowest);
    }
}

/// Every value reaches the far end of the range, and none beats the near end.
proof fn lemma_ends(values: Seq<u16>, lowest: bool)
    ensures
        reaching(values, if lowest { u16::MAX } else { 0 }, lowest) == values.len(),
        beating(values, if lowest { 0 } else { u16::MAX }, lowest) == 0,
    decreases values.len(),
{
    if values.len() > 0 {
        lemma_ends(values.drop_first(), lowest);
    }
}

/// No more values beat a number than reach it, and none of them are more
/// than there are values.
pub proof fn lemma_counts(values: Seq<u16>, p: u16, lowest: bool)
    ensures
        beating(values, p, lowest) <= reaching(values, p, lowest) <= values.len(),
    decreases values.len(),
{
    if values.len() > 0 {
        lemma_counts(values.drop_first(), p, lowest);
    }
}

/// A number that more values reach than beat is one of the values.
proof fn lemma_reached(values: Seq<u16>, p: u16, lowest: bool) -> (i: int)
    requires
        beating(values, p, lowest) < reaching(values, p, lowest),
    ensures
        0 <= i < values.len(),
        values[i] == p,
    decreases values.len(),
{
    if values[0] == p {
        0
    } else {
        lemma_counts(values.drop_first(), p, lowest);
        lemma_reached(values.drop_first(), p, lowest) + 1
    }
}

/// The values that reach a number beat every number beyond it.
proof fn lemma_order(values: Seq<u16>, p: u16, q: u16, lowest: bool)
    requires
        beats(p, q, lowest),
    ensures
        reaching(values, p, lowest) <= beating(values, q, lowest),
    decreases values.len(),
{
    if values.len() > 0 {
        lemma_order(values.drop_first(), p, q, lowest);
    }
}

/// Looks for the pivot from `b` on, toward the near end of the range.
proof fn lemma_search(values: Seq<u16>, k: nat, lowest: bool, b: u16) -> (p: u16)
    requires
        k <= reaching(values, b, lowest),
        k >= 1,
    ensures
        is_pivot(values, k, lowest, p),
    decreases
            if lowest {
                b as int
            } else {
                u16::MAX - b
            },
{
    if beating(values, b, lowest) < k {
        b
    } else {
        lemma_ends(values, lowest);
        let next = if lowest {
            (b - 1) as u16
        } else {
            (b + 1) as u16
        };
        lemma_step(values, next, b, lowest);
        lemma_search(values, k, lowest, next)
    }
}

/// Among one value or more there is a `k`-th lowest and a `k`-th highest, for
/// `k` from one to their number, and it is one of them.
pub proof fn lemma_pivot_exists(values: Seq<u16>, k: nat, lowest: bool)
    requires
        1 <= k <= values.len(),
    ensures
        is_pivot(values, k, lowest, pivot_of(values, k, lowest)),
        values.contains(pivot_of(values, k, lowest)),
{
    lemma_ends(values, lowest);
    let found = lemma_search(values, k, lowest, if lowest { u16::MAX } else { 0 });
    assert(is_pivot(values, k, lowest, found));
    let at = lemma_reached(values, pivot_of(values, k, lowest), lowest);
    assert(values[at] == pivot_of(values, k, lowest));
}

/// No two numbers are the `k`-th lowest, nor the `k`-th highest.
pub proof fn lemma_pivot_unique(values: Seq<u16>, k: nat, lowest: bool, p: u16, q: u16)
    requires
        is_pivot(values, k, lowest, p),
        is_pivot(values, k, lowest, q),
    ensures
        p == q,
{
    if beats(p, q, lowest) {
        lemma_order(values, p, q, lowest);
    }
    if beats(q, p, lowest) {
        lemma_order(values, q, p, lowest);
    }
}

/// What is picked and what is passed over make up the roll: together they
/// are as many as the values, and hold each value as often as the roll does.
pub proof fn lemma_partition(values: Seq<u16>, k: nat, p: u16, lowest: bool)
    ensures
        picked(values, k, p, lowest).len() + passed(values, k, p, lowest).len() == values.len(),
        picked(values, k, p, lowest).to_multiset().add(passed(values, k, p, lowest).to_multiset())
            == values.to_multiset(),
    decreases values.len(),
{
    broadcast use vstd::seq_lib::group_to_multiset_ensures;

    let a = picked(values, k, p, lowest);
    let b = passed(values, k, p, lowest);
    if values.len() == 0 {
        assert(a.to_multiset().add(b.to_multiset()) =~= values.to_multiset());
    } else {
        let rest = values.drop_first();
        assert(values == seq![values[0]] + rest);
        vstd::seq_lib::lemma_multiset_commutative(seq![values[0]], rest);
        if k > 0 && reaches(values[0], p, lowest) {
            lemma_partition(rest, (k - 1) as nat, p, lowest);
            let a1 = picked(rest, (k - 1) as nat, p, lowest);
            vstd::seq_lib::lemma_multiset_commutative(seq![values[0]], a1);
            assert(a.to_multiset().add(b.to_multiset()) =~= values.to_multiset());
        } else {
            lemma_partition(rest, k, p, lowest);
            if k == 0 {
                assert(a =~= Seq::empty());
                assert(picked(rest, k, p, lowest) =~= Seq::empty());
            }
            let b1 = passed(rest, k, p, lowest);
            vstd::seq_lib::lemma_multiset_commutative(seq![values[0]], b1);
            assert(a.to_multiset().add(b.to_multiset()) =~= values.to_multiset());
        }
    }
}

/// What is picked and what is passed over lies where the values lie.
pub proof fn lemma_within(values: Seq<u16>, k: nat, p: u16, lowest: bool, low: u16, high: u16)
    requires
        forall|i: int| 0 <= i < values.len() ==> low <= #[trigger] values[i] <= high,
    ensures
        forall|i: int|
            0 <= i < picked(values, k, p, lowest).len() ==> low <= #[trigger] picked(
                values,
                k,
                p,
                lowest,
            )[i] <= high,
        forall|i: int|
            0 <= i < passed(values, k, p, lowest).len() ==> low <= #[trigger] passed(
                values,
                k,
                p,
                lowest,
            )[i] <= high,
    decreases values.len(),
{
    if values.len() > 0 {
        let rest = values.drop_first();
        assert forall|i: int| 0 <= i < rest.len() implies low <= #[trigger] rest[i] <= high by {
            assert(rest[i] == values[i + 1]);
        }
        lemma_within(rest, k, p, lowest, low, high);
        if k > 0 {
            lemma_within(rest, (k - 1) as nat, p, lowest, low, high);
        }
        let taken = picked(values, k, p, lowest);
        let left = passed(values, k, p, lowest);
        assert(low <= values[0] <= high);
        assert forall|i: int| 0 <= i < taken.len() implies low <= #[trigger] taken[i] <= high by {
            if reaches(values[0], p, lowest) {
                let inner = picked(rest, (k - 1) as nat, p, lowest);
                assert(taken == seq![values[0]] + inner);
                if i > 0 {
                    assert(taken[i] == inner[i - 1]);
                }
            } else {
                let inner = picked(rest, k, p, lowest);
                assert(taken[i] == inner[i]);
            }
        }
        assert forall|i: int| 0 <= i < left.len() implies low <= #[trigger] left[i] <= high by {
            if k > 0 && reaches(values[0], p, lowest) {
                let inner = passed(rest, (k - 1) as nat, p, lowest);
                assert(left[i] == inner[i]);
            } else {
                let inner = passed(rest, k, p, lowest);
                assert(left == seq![values[0]] + inner);
                if i > 0 {
                    assert(left[i] == inner[i - 1]);
                }
            }
        }
    }
}

/// As many values are picked as are asked for, if that many reach the pivot.
pub proof fn lemma_picked_len(values: Seq<u16>, k: nat, p: u16, lowest: bool)
    requires
        k <= reaching(values, p, lowest),
    ensures
        picked(values, k, p, lowest).len() == k,
    decreases values.len(),
{
    if values.len() > 0 && k > 0 {
        if reaches(values[0], p, lowest) {
            lemma_picked_len(values.drop_first(), (k - 1) as nat, p, lowest);
        } else {
            lemma_picked_len(values.drop_first(), k, p, lowest);
        }
    }
}

/// How many of `values` reach `p`, and how many beat it.
fn count(values: &Vec<u16>, p: u16, lowest: bool) -> (r: (usize, usize))
    ensures
        r.0 == reaching(values@, p, lowest),
        r.1 == beating(values@, p, lowest),
{
    let mut reached: usize = 0;
    let mut beaten: usize = 0;
    let mut i: usize = values.len();
    while i > 0
        invariant
            i <= values.len(),
            reached == reaching(values@.skip(i as int), p, lowest),
            beaten == beating(values@.skip(i as int), p, lowest),
            reached <= values.len() - i,
            beaten <= values.len() - i,
        decreases i,
    {
        i -= 1;
        assert(values@.skip(i as int).drop_first() == values@.skip(i + 1));
        let v = values[i];
        if (lowest && v <= p) || (!lowest && v >= p) {
            reached += 1;
        }
        if (lowest && v < p) || (!lowest && v > p) {
            beaten += 1;
        }
    }
    assert(values@.skip(0) == values@);
    (reached, beaten)
}

/// The `k`-th lowest of `values`, or the `k`-th highest.
pub fn find_pivot(values: &Vec<u16>, k: usize, lowest: bool) -> (p: u16)
    requires
        1 <= k <= values.len(),
    ensures
        p == pivot_of(values@, k as nat, lowest),
        is_pivot(values@, k as nat, lowest, p),
{
    proof {
        lemma_pivot_exists(values@, k as nat, lowest);
    }
    let mut i: usize = 0;
    while i < values.len()
        invariant
            i <= values.len(),
            forall|j: int|
                0 <= j < i ==> !is_pivot(values@, k as nat, lowest, #[trigger] values@[j]),
            values@.contains(pivot_of(values@, k as nat, lowest)),
            is_pivot(values@, k as nat, lowest, pivot_of(values@, k as nat, lowest)),
        decreases values.len() - i,
    {
        let (reached, beaten) = count(values, values[i], lowest);
        if beaten < k && k <= reached {
            proof {
                lemma_pivot_unique(
                    values@,
                    k as nat,
                    lowest,
                    values@[i as int],
                    pivot_of(values@, k as nat, lowest),
                );
            }
            return values[i];
        }
        i += 1;
    }
    proof {
        let j = choose|j: int|
            0 <= j < values@.len() && values@[j] == pivot_of(values@, k as nat, lowest);
        assert(!is_pivot(values@, k as nat, lowest, values@[j]));
    }
    0
}

/// The first `k` of `values` that reach `p` if `pick` is set, and else the
/// values without them.
fn walk(values: &Vec<u16>, k: usize, p: u16, lowest: bool, pick: bool) -> (out: Vec<u16>)
    ensures
        out@ == if pick {
            picked(values@, k as nat, p, lowest)
        } else {
            passed(values@, k as nat, p, lowest)
        },
{
    let mut out: Vec<u16> = Vec::new();
    let mut left: usize = k;
    let mut i: usize = 0;
    assert(values@.skip(0) == values@);
    while i < values.len()
        invariant
            i <= values.len(),
            left <= k,
            pick ==> picked(values@, k as nat, p, lowest) == out@ + picked(
                values@.skip(i as int),
                left as nat,
                p,
                lowest,
            ),
            !pick ==> passed(values@, k as nat, p, lowest) == out@ + passed(
                values@.skip(i as int),
                left as nat,
                p,
                lowest,
            ),
        decreases values.len() - i,
    {
        let v = values[i];
        let ghost rest = values@.skip(i as int);
        assert(rest.drop_first() == values@.skip(i + 1));
        assert(rest[0] == v);
        let reached = (lowest && v <= p) || (!lowest && v >= p);
        if left > 0 && reached {
            if pick {
                out.push(v);
            }
            left -= 1;
        } else {
            if !pick {
                out.push(v);
            }
            proof {
                if left == 0 {
                    assert(picked(values@.skip(i + 1), 0, p, lowest) =~= Seq::empty());
                    assert(picked(rest, 0, p, lowest) =~= Seq::empty());
                }
            }
        }
        i += 1;
    }
    out
}

/// Keeps `k` of `values`: the first `k` that reach the `k`-th highest value,
/// or for `lowest` the `k`-th lowest, in the order in which they stand.
pub fn keep(values: &Vec<u16>, k: usize, lowest: bool) -> (out: Vec<u16>)
    requires
        k <= values.len(),
    ensures
        out@ == kept(values@, k as nat, lowest),
        out.len() == k,
{
    if k == 0 {
        return Vec::new();
    }
    let p = find_pivot(values, k, lowest);
    proof {
        lemma_picked_len(values@, k as nat, p, lowest);
    }
    walk(values, k, p, lowest, true)
}

/// Drops `k` of `values`: the first `k` that reach the `k`-th lowest value,
/// or for `highest` the `k`-th highest. The others stay in their order.
pub fn drop(values: &Vec<u16>, k: usize, highest: bool) -> (out: Vec<u16>)
    requires
        k <= values.len(),
    ensures
        out@ == dropped(values@, k as nat, highest),
        out.len() == values.len() - k,
{
    let p = if k == 0 {
        0
    } else {
        find_pivot(values, k, !highest)
    };
    proof {
        let chosen = pivot_of(values@, k as nat, !highest);
        lemma_partition(values@, k as nat, p, !highest);
        if k == 0 {
            lemma_passed_none(values@, p, chosen, !highest);
            assert(picked(values@, 0, p, !highest) =~= Seq::empty());
        } else {
            lemma_picked_len(values@, k as nat, p, !highest);
        }
    }
    walk(values, k, p, !highest, false)
}

/// Where nothing is to be picked, everything is passed over, whatever the pivot.
proof fn lemma_passed_none(values: Seq<u16>, p: u16, q: u16, lowest: bool)
    ensures
        passed(values, 0, p, lowest) == values,
        passed(values, 0, q, lowest) == values,
    decreases values.len(),
{
    if values.len() > 0 {
        lemma_passed_none(values.drop_first(), p, q, lowest);
        assert(seq![values[0]] + values.drop_first() == values);
    }
}

} // verus!
