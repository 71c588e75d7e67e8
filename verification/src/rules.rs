//! What the operations do with the values that were rolled.

use vstd::prelude::*;

verus! {

/// The values of a roll as values of a result.
pub open spec fn widened(values: Seq<u16>) -> Seq<i32> {
    Seq::new(values.len(), |i: int| values[i] as i32)
}

/// How many of `values` are lower than `threshold`.
pub open spec fn below(values: Seq<u16>, threshold: u16) -> nat
    decreases values.len(),
{
    if values.len() == 0 {
        0
    } else {
        below(values.drop_last(), threshold) + if values.last() < threshold {
            1nat
        } else {
            0nat
        }
    }
}

/// How many of `values` show `top`.
pub open spec fn maxed(values: Seq<u16>, top: u16) -> nat
    decreases values.len(),
{
    if values.len() == 0 {
        0
    } else {
        maxed(values.drop_last(), top) + if values.last() == top {
            1nat
        } else {
            0nat
        }
    }
}

/// A roll in which every value below `threshold` has been rolled once more.
/// The new values, `again`, are handed out in order to the values that are
/// too low. With `choose` the higher of the old and the new value stays,
/// without it the new one. A value for which no new one is left stays as
/// it is.
pub open spec fn merged(values: Seq<u16>, again: Seq<u16>, threshold: u16, choose: bool) -> Seq<
    u16,
> {
    Seq::new(
        values.len(),
        |i: int|
            {
                let j = below(values.take(i), threshold) as int;
                if values[i] < threshold && j < again.len() {
                    if choose && values[i] > again[j] {
                        values[i]
                    } else {
                        again[j]
                    }
                } else {
                    values[i]
                }
            },
    )
}

/// A value after `modifier` is added and the bound applied: with `upper`
/// the result is at most `bound` and never negative, without it at least
/// `bound`.
pub open spec fn bounded_value(v: int, modifier: int, bound: int, upper: bool) -> int {
    let moved = v + modifier;
    if upper {
        if moved > bound {
            bound
        } else if moved < 0 {
            0
        } else {
            moved
        }
    } else {
        if moved < bound {
            bound
        } else {
            moved
        }
    }
}

/// A roll with each value moved and bounded.
pub open spec fn bounded(values: Seq<u16>, modifier: int, bound: u16, upper: bool) -> Seq<i32> {
    Seq::new(
        values.len(),
        |i: int| bounded_value(values[i] as int, modifier, bound as int, upper) as i32,
    )
}

/// The first place from `from` on where `values` shows `top`; the number of
/// values if there is none.
pub open spec fn next_top(values: Seq<i32>, from: int, top: u16) -> int
    decreases values.len() - from,
{
    if from < 0 || from >= values.len() {
        values.len() as int
    } else if values[from] == top {
        from
    } else {
        next_top(values, from + 1, top)
    }
}

/// The first place from `from` on where a value is `high` or more, or `low`
/// or less; the number of values if there is none.
pub open spec fn next_open(values: Seq<u16>, from: int, low: u16, high: u16) -> int
    decreases values.len() - from,
{
    if from < 0 || from >= values.len() {
        values.len() as int
    } else if values[from] >= high || values[from] <= low {
        from
    } else {
        next_open(values, from + 1, low, high)
    }
}

/// The place that is found lies at `from` or behind it, and holds `top` if
/// it holds anything.
pub proof fn lemma_next_top(values: Seq<i32>, from: int, top: u16)
    requires
        0 <= from,
    ensures
        from <= next_top(values, from, top) || next_top(values, from, top) == values.len(),
        next_top(values, from, top) <= values.len(),
        next_top(values, from, top) < values.len() ==> values[next_top(values, from, top)] == top,
    decreases values.len() - from,
{
    if from < values.len() && values[from] != top {
        lemma_next_top(values, from + 1, top);
    }
}

/// The place that is found lies at `from` or behind it, and holds a value
/// that opens if it holds anything.
pub proof fn lemma_next_open(values: Seq<u16>, from: int, low: u16, high: u16)
    requires
        0 <= from,
    ensures
        from <= next_open(values, from, low, high) || next_open(values, from, low, high)
            == values.len(),
        next_open(values, from, low, high) <= values.len(),
        next_open(values, from, low, high) < values.len() ==> {
            let at = next_open(values, from, low, high);
            values[at] >= high || values[at] <= low
        },
    decreases values.len() - from,
{
    if from < values.len() && !(values[from] >= high || values[from] <= low) {
        lemma_next_open(values, from + 1, low, high);
    }
}

/// No more values are below a threshold than there are values.
pub proof fn lemma_below_len(values: Seq<u16>, threshold: u16)
    ensures
        below(values, threshold) <= values.len(),
    decreases values.len(),
{
    if values.len() > 0 {
        lemma_below_len(values.drop_last(), threshold);
    }
}

/// Fewer values are below a threshold before a value that is below it than
/// in the whole roll.
pub proof fn lemma_below_before(values: Seq<u16>, threshold: u16, i: int)
    requires
        0 <= i < values.len(),
        values[i] < threshold,
    ensures
        below(values.take(i), threshold) < below(values, threshold),
    decreases values.len(),
{
    if i < values.len() - 1 {
        lemma_below_before(values.drop_last(), threshold, i);
        assert(values.drop_last().take(i) == values.take(i));
    } else {
        assert(values.drop_last() == values.take(i));
    }
}

/// A roll whose low values have all been rolled again holds no value below
/// the threshold, if the new values are none, and none above the top, if
/// neither the old nor the new values are.
pub proof fn lemma_merged_within(
    values: Seq<u16>,
    again: Seq<u16>,
    threshold: u16,
    choose: bool,
    top: u16,
)
    requires
        again.len() == below(values, threshold),
        forall|i: int| 0 <= i < values.len() ==> #[trigger] values[i] <= top,
        forall|j: int| 0 <= j < again.len() ==> threshold <= #[trigger] again[j] <= top,
    ensures
        forall|i: int|
            0 <= i < values.len() ==> threshold <= #[trigger] merged(
                values,
                again,
                threshold,
                choose,
            )[i] <= top,
{
    assert forall|i: int| 0 <= i < values.len() implies threshold <= #[trigger] merged(
        values,
        again,
        threshold,
        choose,
    )[i] <= top by {
        if values[i] < threshold {
            lemma_below_before(values, threshold, i);
        }
    }
}

/// No more values show the top than there are values.
pub proof fn lemma_maxed_len(values: Seq<u16>, top: u16)
    ensures
        maxed(values, top) <= values.len(),
    decreases values.len(),
{
    if values.len() > 0 {
        lemma_maxed_len(values.drop_last(), top);
    }
}

/// The values of a roll as values of a result.
pub fn widen(values: &Vec<u16>) -> (out: Vec<i32>)
    ensures
        out@ == widened(values@),
{
    let mut out: Vec<i32> = Vec::new();
    let mut i: usize = 0;
    while i < values.len()
        invariant
            i <= values.len(),
            out.len() == i,
            forall|k: int| 0 <= k < i ==> out@[k] == values@[k] as i32,
        decreases values.len() - i,
    {
        out.push(values[i] as i32);
        i += 1;
    }
    out
}

/// How many of `values` are lower than `threshold`.
pub fn count_below(values: &Vec<u16>, threshold: u16) -> (n: usize)
    ensures
        n == below(values@, threshold),
        n <= values.len(),
{
    let mut n: usize = 0;
    let mut i: usize = 0;
    while i < values.len()
        invariant
            i <= values.len(),
            n == below(values@.take(i as int), threshold),
            n <= i,
        decreases values.len() - i,
    {
        assert(values@.take(i + 1).drop_last() == values@.take(i as int));
        if values[i] < threshold {
            n += 1;
        }
        i += 1;
    }
    assert(values@.take(values.len() as int) == values@);
    n
}

/// How many of `values` show `top`.
pub fn count_maxed(values: &Vec<u16>, top: u16) -> (n: usize)
    ensures
        n == maxed(values@, top),
        n <= values.len(),
{
    let mut n: usize = 0;
    let mut i: usize = 0;
    while i < values.len()
        invariant
            i <= values.len(),
            n == maxed(values@.take(i as int), top),
            n <= i,
        decreases values.len() - i,
    {
        assert(values@.take(i + 1).drop_last() == values@.take(i as int));
        if values[i] == top {
            n += 1;
        }
        i += 1;
    }
    assert(values@.take(values.len() as int) == values@);
    n
}

/// Puts the values that were rolled again in the place of those below
/// `threshold`. See [`merged`].
pub fn merge(values: &Vec<u16>, again: &Vec<u16>, threshold: u16, choose: bool) -> (out: Vec<u16>)
    ensures
        out@ == merged(values@, again@, threshold, choose),
{
    let mut out: Vec<u16> = Vec::new();
    let mut i: usize = 0;
    let mut j: usize = 0;
    while i < values.len()
        invariant
            i <= values.len(),
            out.len() == i,
            j == below(values@.take(i as int), threshold),
            j <= i,
            forall|k: int|
                0 <= k < i ==> out@[k] == merged(values@, again@, threshold, choose)[k],
        decreases values.len() - i,
    {
        assert(values@.take(i + 1).drop_last() == values@.take(i as int));
        let v = values[i];
        if v < threshold {
            if j < again.len() {
                let w = again[j];
                if choose && v > w {
                    out.push(v);
                } else {
                    out.push(w);
                }
            } else {
                out.push(v);
            }
            j += 1;
        } else {
            out.push(v);
        }
        i += 1;
    }
    out
}

/// Moves each value by `modifier` and applies the bound. See [`bounded_value`].
pub fn bound_all(values: &Vec<u16>, modifier: i32, bound: u16, upper: bool) -> (out: Vec<i32>)
    requires
        -65535 <= modifier <= 65535,
    ensures
        out@ == bounded(values@, modifier as int, bound, upper),
{
    let mut out: Vec<i32> = Vec::new();
    let mut i: usize = 0;
    while i < values.len()
        invariant
            i <= values.len(),
            out.len() == i,
            -65535 <= modifier <= 65535,
            forall|k: int|
                0 <= k < i ==> out@[k] == bounded(values@, modifier as int, bound, upper)[k],
        decreases values.len() - i,
    {
        out.push(bound_one(values[i], modifier, bound, upper));
        i += 1;
    }
    out
}

/// Moves one value by `modifier` and applies the bound. See [`bounded_value`].
pub fn bound_one(v: u16, modifier: i32, bound: u16, upper: bool) -> (r: i32)
    requires
        -65535 <= modifier <= 65535,
    ensures
        r == bounded_value(v as int, modifier as int, bound as int, upper),
        0 <= r <= 131070,
{
    let moved: i32 = v as i32 + modifier;
    let limit: i32 = bound as i32;
    if upper {
        if moved > limit {
            limit
        } else if moved < 0 {
            0
        } else {
            moved
        }
    } else {
        if moved < limit {
            limit
        } else {
            moved
        }
    }
}

/// The first place from `from` on where `values` shows `top`. See [`next_top`].
pub fn find_top(values: &Vec<i32>, from: usize, top: u16) -> (at: usize)
    ensures
        at == next_top(values@, from as int, top),
        from <= at <= values.len() || (from > values.len() && at == values.len()),
        at < values.len() ==> values@[at as int] == top,
{
    let mut i: usize = from;
    while i < values.len()
        invariant
            from <= i,
            next_top(values@, from as int, top) == next_top(values@, i as int, top),
        decreases values.len() - i,
    {
        if values[i] == top as i32 {
            return i;
        }
        i += 1;
    }
    values.len()
}

/// The first place from `from` on where a value opens. See [`next_open`].
pub fn find_open(values: &Vec<u16>, from: usize, low: u16, high: u16) -> (at: usize)
    ensures
        at == next_open(values@, from as int, low, high),
        from <= at <= values.len() || (from > values.len() && at == values.len()),
        at < values.len() ==> values@[at as int] >= high || values@[at as int] <= low,
{
    let mut i: usize = from;
    while i < values.len()
        invariant
            from <= i,
            next_open(values@, from as int, low, high) == next_open(values@, i as int, low, high),
        decreases values.len() - i,
    {
        if values[i] >= high || values[i] <= low {
            return i;
        }
        i += 1;
    }
    values.len()
}

} // verus!
