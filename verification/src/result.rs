//! What rolling one term gives.

use crate::arith::{clamp32, hits, hits_of, sum, sum_of};
use crate::text::{decimal_of, join, push_integer, push_natural, push_text, string_of};
use vstd::prelude::*;

verus! {

/// The result of a roll as a plain value.
pub struct DiceResultView {
    /// The value of each die, in the order in which they fell.
    pub seq: Seq<i32>,
    /// Whether every number behind these values came from the oracle.
    pub truly_random: bool,
    /// What a value must reach to count as a success, where successes are counted.
    pub success_threshold: Option<u16>,
}

/// The result of rolling the dice of one term.
#[derive(Clone, Debug, PartialEq, Eq)]
pub struct DiceResult {
    seq: Vec<i32>,
    truly_random: bool,
    success_threshold: Option<u16>,
}

impl View for DiceResult {
    type V = DiceResultView;

    closed spec fn view(&self) -> DiceResultView {
        DiceResultView {
            seq: self.seq@,
            truly_random: self.truly_random,
            success_threshold: self.success_threshold,
        }
    }
}

/// The result of rolling no dice.
pub open spec fn zero_result() -> DiceResultView {
    DiceResultView { seq: Seq::empty(), truly_random: false, success_threshold: None }
}

/// The one number that a result comes to: how many of its values reach the
/// threshold, if it has one, and else their sum, kept in thirty-two bits.
pub open spec fn aggregate_of(r: DiceResultView) -> i32 {
    match r.success_threshold {
        Some(threshold) => clamp32(hits_of(r.seq, threshold as int) as int),
        None => clamp32(sum_of(r.seq)),
    }
}

/// The values of a result, each written in base ten.
pub open spec fn written(values: Seq<i32>) -> Seq<Seq<char>> {
    Seq::new(values.len(), |i: int| decimal_of(values[i] as int))
}

/// How a result is shown: `0` for no dice; else the values with commas
/// between them; behind more than one value, their sum, or the threshold
/// and the number of successes; and a note where the oracle did not answer.
pub open spec fn result_text(r: DiceResultView) -> Seq<char> {
    if r.seq.len() == 0 {
        seq!['0']
    } else {
        let values = join(written(r.seq), ", "@);
        let total = if r.seq.len() > 1 {
            match r.success_threshold {
                Some(threshold) => " >= "@ + decimal_of(threshold as int) + " = "@ + decimal_of(
                    aggregate_of(r) as int,
                ),
                None => " = "@ + decimal_of(aggregate_of(r) as int),
            }
        } else {
            Seq::empty()
        };
        let note = if r.truly_random {
            Seq::empty()
        } else {
            " [pseudo-random]"@
        };
        values + total + note
    }
}

impl DiceResult {
    /// A result made of its parts.
    pub fn new(seq: Vec<i32>, truly_random: bool, success_threshold: Option<u16>) -> (r: DiceResult)
        ensures
            r@ == (DiceResultView { seq: seq@, truly_random, success_threshold }),
    {
        DiceResult { seq, truly_random, success_threshold }
    }

    /// The result of rolling no dice: no values, and a total of zero.
    pub fn zero() -> (r: DiceResult)
        ensures
            r@ == zero_result(),
    {
        DiceResult::new(Vec::new(), false, None)
    }

    /// The values of the dice.
    pub fn seq(&self) -> (values: &Vec<i32>)
        ensures
            values@ == self@.seq,
    {
        &self.seq
    }

    /// Whether every number behind this result came from the oracle.
    pub fn truly_random(&self) -> (b: bool)
        ensures
            b == self@.truly_random,
    {
        self.truly_random
    }

    /// The threshold of a success, where successes are counted.
    pub fn success_threshold(&self) -> (t: Option<u16>)
        ensures
            t == self@.success_threshold,
    {
        self.success_threshold
    }

    /// The sum of the values, kept in thirty-two bits.
    pub fn sum(&self) -> (total: i32)
        ensures
            total == clamp32(sum_of(self@.seq)),
    {
        sum(&self.seq)
    }

    /// The number that the result comes to: the successes where they are
    /// counted, and else the sum.
    pub fn aggregate(&self) -> (total: i32)
        ensures
            total == aggregate_of(self@),
    {
        match self.success_threshold {
            Some(threshold) => {
                let count = hits(&self.seq, threshold);
                if count > 2147483647 {
                    i32::MAX
                } else {
                    count as i32
                }
            },
            None => sum(&self.seq),
        }
    }

    /// The result as it is shown. See [`result_text`].
    pub fn text(&self) -> (s: String)
        ensures
            s@ == result_text(self@),
    {
        let mut out: Vec<char> = Vec::new();
        self.write(&mut out);
        string_of(&out)
    }

    /// Writes the result behind `out` as it is shown.
    pub fn write(&self, out: &mut Vec<char>)
        ensures
            final(out)@ == old(out)@ + result_text(self@),
    {
        if self.seq.len() == 0 {
            out.push('0');
            assert(out@ == old(out)@ + seq!['0']);
            return ;
        }
        let ghost parts = written(self.seq@);
        let mut i: usize = 0;
        while i < self.seq.len()
            invariant
                i <= self.seq.len(),
                parts == written(self.seq@),
                out@ == old(out)@ + join(parts.take(i as int), ", "@),
            decreases self.seq.len() - i,
        {
            assert(parts.take(i + 1).drop_last() == parts.take(i as int));
            assert(parts.take(i + 1).last() == decimal_of(self.seq@[i as int] as int));
            if i > 0 {
                push_text(out, ", ");
            }
            push_integer(out, self.seq[i] as i64);
            assert(out@ == old(out)@ + join(parts.take(i + 1), ", "@));
            i += 1;
        }
        assert(parts.take(self.seq.len() as int) == parts);
        let ghost values = out@;
        if self.seq.len() > 1 {
            match self.success_threshold {
                Some(threshold) => {
                    push_text(out, " >= ");
                    push_natural(out, threshold as u64);
                    push_text(out, " = ");
                    push_integer(out, self.aggregate() as i64);
                    assert(out@ == values + (" >= "@ + decimal_of(threshold as int) + " = "@
                        + decimal_of(aggregate_of(self@) as int)));
                },
                None => {
                    push_text(out, " = ");
                    push_integer(out, self.aggregate() as i64);
                    assert(out@ == values + (" = "@ + decimal_of(aggregate_of(self@) as int)));
                },
            }
        } else {
            assert(out@ == values + Seq::<char>::empty());
        }
        let ghost totalled = out@;
        if !self.truly_random {
            push_text(out, " [pseudo-random]");
        } else {
            assert(out@ == totalled + Seq::<char>::empty());
        }
    }
}

} // verus!
