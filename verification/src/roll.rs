//! Rolling the dice of one term, step by step.
//!
//! A roll may need several answers of the oracle: dice that explode bring
//! more dice, and what is rolled again depends on what fell. So a roll is a
//! state that asks for numbers and, given them, either ends or asks again.
//! [`Dice::roll`] begins, [`Roll::advance`] goes on with the numbers that
//! were asked for, and [`Roll::resume`] goes on with what the oracle sent.

use crate::arith::{add_clamped, clamp32, sub_clamped};
use crate::dice::{valid_dice, Dice, DiceView, MAX_SIDES};
use crate::error::{DiceError, ErrorKind};
use crate::kind::DieKind;
use crate::oracle::{meets, received, sent, settle, Request};
use crate::result::{zero_result, DiceResult, DiceResultView};
use crate::rules::{
    below, bound_all, bound_one, bounded, bounded_value, count_below, count_maxed, find_open,
    find_top, maxed, merge, merged, next_open, next_top, widen, widened,
};
use crate::select::{drop, dropped, keep, kept};
use vstd::prelude::*;

verus! {

/// Where a roll stands.
#[derive(Clone, Copy, Debug, PartialEq, Eq, Structural)]
pub enum Stage {
    /// The dice have not been rolled yet.
    First,
    /// The values that were too low are being rolled again.
    Replace,
    /// The dice that showed their highest face have brought more dice.
    Explode,
    /// A die that showed its highest face is being rolled again.
    Open,
    /// A die that opened upward or downward is being rolled on.
    Ended,
}

/// A roll under way, as a plain value.
pub struct RollView {
    /// The term that is rolled.
    pub dice: DiceView,
    /// Where the roll stands.
    pub stage: Stage,
    /// The numbers that it waits for.
    pub want: Request,
    /// The values so far.
    pub seq: Seq<i32>,
    /// The dice as they first fell, where the roll has to remember them.
    pub fallen: Seq<u16>,
    /// Whether the oracle has given every number so far.
    pub truly_random: bool,
    /// How often exploding dice have brought more dice, or how often the die
    /// at `index` has been rolled again.
    pub depth: u16,
    /// The die that is being rolled on.
    pub index: int,
}

/// What a step of a roll gives: the end, or a roll that asks for more.
pub enum StepView {
    /// The roll has ended, with a result or an error.
    Done(Result<DiceResultView, ErrorKind>),
    /// The roll asks for more numbers.
    More(RollView),
}

/// A roll that ends with the values `seq`.
pub open spec fn done(seq: Seq<i32>, truly_random: bool, threshold: Option<u16>) -> StepView {
    StepView::Done(Ok(DiceResultView { seq, truly_random, success_threshold: threshold }))
}

/// A roll that ends with one value that no die had to be cast for.
pub open spec fn single(value: int) -> StepView {
    done(seq![value as i32], true, None)
}

/// A roll that ends with an error.
pub open spec fn failed(kind: ErrorKind) -> StepView {
    StepView::Done(Err(kind))
}

/// A roll that asks for as many numbers as the term has dice, from `low` up
/// to the number of sides.
pub open spec fn first(d: DiceView, low: u16) -> StepView {
    StepView::More(
        RollView {
            dice: d,
            stage: Stage::First,
            want: Request { count: d.amount, low, high: d.sides },
            seq: Seq::empty(),
            fallen: Seq::empty(),
            truly_random: true,
            depth: 0,
            index: 0,
        },
    )
}

/// Whether the operation bounds the values from above.
pub open spec fn is_upper(kind: DieKind) -> bool {
    kind is UpperBound || kind is AddUpperBound || kind is SubtractUpperBound
}

/// Whether the operation bounds the values.
pub open spec fn is_bounded(kind: DieKind) -> bool {
    is_upper(kind) || kind is LowerBound || kind is AddLowerBound || kind is SubtractLowerBound
}

/// What a bounding term adds to each value before the bound is applied.
pub open spec fn modifier_of(d: DiceView) -> int {
    match d.kind {
        DieKind::AddUpperBound | DieKind::AddLowerBound => d.args[0] as int,
        DieKind::SubtractUpperBound | DieKind::SubtractLowerBound => -(d.args[0] as int),
        _ => 0,
    }
}

/// The bound of a bounding term.
pub open spec fn bound_of(d: DiceView) -> u16 {
    match d.kind {
        DieKind::UpperBound | DieKind::LowerBound => d.args[0],
        _ => d.args[1],
    }
}

/// The value from which a die of an open-ended term opens upward: the
/// second argument, or where there is none, as far below the top as the
/// first argument is above the bottom.
pub open spec fn high_of(d: DiceView) -> int {
    if d.kind is OpenEnded {
        d.args[1] as int
    } else {
        d.sides + 1 - d.args[0]
    }
}

/// The threshold that a term attaches to its result, if it counts successes.
pub open spec fn threshold_of(d: DiceView) -> Option<u16> {
    match d.kind {
        DieKind::Success => Some(d.args[0]),
        DieKind::ExplodingSuccess => Some(d.args[1]),
        _ => None,
    }
}

/// How a roll begins.
///
/// No dice, or dice of no sides, give the empty result. An argument that
/// does not suit the dice is an error, but for a threshold of successes
/// that no die can reach: that gives a single zero. Dice of one side are
/// not cast: they give a single value, and cannot explode or open. Every
/// other roll begins by asking for one number for each die.
pub open spec fn started(d: DiceView) -> StepView {
    if d.amount == 0 || d.sides == 0 {
        StepView::Done(Ok(zero_result()))
    } else {
        match d.kind {
            DieKind::Regular => if d.sides == 1 {
                single(d.amount as int)
            } else {
                first(d, 1)
            },
            DieKind::Reroll => if d.args[0] > d.sides {
                failed(ErrorKind::DiceExprInvalidArgument)
            } else if d.sides == 1 {
                single(d.amount as int)
            } else {
                first(d, d.args[0])
            },
            DieKind::Success => if d.args[0] > d.sides {
                single(0)
            } else if d.sides == 1 {
                single(d.amount as int)
            } else {
                first(d, 1)
            },
            DieKind::Drop | DieKind::DropHigh => if d.args[0] > d.amount {
                failed(ErrorKind::DiceExprInvalidArgument)
            } else if d.sides == 1 {
                single(d.amount - d.args[0])
            } else {
                first(d, 1)
            },
            DieKind::Keep | DieKind::KeepLow => if d.args[0] > d.amount {
                failed(ErrorKind::DiceExprInvalidArgument)
            } else if d.sides == 1 {
                single(d.args[0] as int)
            } else {
                first(d, 1)
            },
            DieKind::RerollOnceAndKeep | DieKind::RerollOnceAndChoose => if d.args[0] > d.sides {
                failed(ErrorKind::DiceExprInvalidArgument)
            } else if d.sides == 1 {
                single(d.amount as int)
            } else {
                first(d, 1)
            },
            DieKind::Explode | DieKind::Open => if d.sides == 1 {
                failed(ErrorKind::DiceExprInvalidSides)
            } else {
                first(d, 1)
            },
            DieKind::ExplodingSuccess => if d.args[1] > d.sides {
                failed(ErrorKind::DiceExprInvalidArgument)
            } else if d.sides == 1 {
                failed(ErrorKind::DiceExprInvalidSides)
            } else {
                first(d, 1)
            },
            DieKind::UpperBound
            | DieKind::LowerBound
            | DieKind::AddUpperBound
            | DieKind::AddLowerBound
            | DieKind::SubtractUpperBound
            | DieKind::SubtractLowerBound => if d.sides == 1 {
                single(
                    d.amount * bounded_value(
                        1,
                        modifier_of(d),
                        bound_of(d) as int,
                        is_upper(d.kind),
                    ),
                )
            } else {
                first(d, 1)
            },
            DieKind::OpenEnded | DieKind::OpenEndedImplicit => if d.sides == 1 {
                failed(ErrorKind::DiceExprInvalidSides)
            } else if !(d.args[0] < high_of(d) <= d.sides) {
                failed(ErrorKind::DiceExprInvalidArgument)
            } else {
                first(d, 1)
            },
        }
    }
}

/// How exploding dice go on after a batch fell: if none of the batch shows
/// the highest face, or the limit of batches is reached, the roll ends.
/// Else it asks for one more die for each that did.
pub open spec fn exploding(
    d: DiceView,
    seq: Seq<i32>,
    batch: Seq<u16>,
    depth: u16,
    truly_random: bool,
) -> StepView {
    let count = maxed(batch, d.sides);
    if count == 0 || depth >= d.args[0] {
        done(seq, truly_random, threshold_of(d))
    } else {
        StepView::More(
            RollView {
                dice: d,
                stage: Stage::Explode,
                want: Request { count: count as u16, low: 1, high: d.sides },
                seq,
                fallen: Seq::empty(),
                truly_random,
                depth,
                index: 0,
            },
        )
    }
}

/// How open dice go on once the dice before `from` are settled: the next
/// die that shows the highest face is rolled again; if there is none, or
/// no die may be rolled again at all, the roll ends.
pub open spec fn opening(d: DiceView, seq: Seq<i32>, from: int, truly_random: bool) -> StepView {
    let at = next_top(seq, from, d.sides);
    if d.args[0] == 0 || at >= seq.len() {
        done(seq, truly_random, None)
    } else {
        StepView::More(
            RollView {
                dice: d,
                stage: Stage::Open,
                want: Request { count: 1, low: 1, high: d.sides },
                seq,
                fallen: Seq::empty(),
                truly_random,
                depth: 0,
                index: at,
            },
        )
    }
}

/// How open-ended dice go on once the dice before `from` are settled: the
/// next die that fell high enough or low enough is rolled on; if there is
/// none, the roll ends.
pub open spec fn ending(
    d: DiceView,
    fallen: Seq<u16>,
    seq: Seq<i32>,
    from: int,
    truly_random: bool,
) -> StepView {
    let at = next_open(fallen, from, d.args[0], high_of(d) as u16);
    if at >= fallen.len() {
        done(seq, truly_random, None)
    } else {
        StepView::More(
            RollView {
                dice: d,
                stage: Stage::Ended,
                want: Request { count: 1, low: 1, high: d.sides },
                seq,
                fallen,
                truly_random,
                depth: 0,
                index: at,
            },
        )
    }
}

/// What becomes of the dice as they first fell.
pub open spec fn first_batch(d: DiceView, draws: Seq<u16>, truly_random: bool) -> StepView {
    match d.kind {
        DieKind::Regular | DieKind::Reroll => done(widened(draws), truly_random, None),
        DieKind::Success => done(widened(draws), truly_random, Some(d.args[0])),
        DieKind::Drop => done(widened(dropped(draws, d.args[0] as nat, false)), truly_random, None),
        DieKind::DropHigh => done(
            widened(dropped(draws, d.args[0] as nat, true)),
            truly_random,
            None,
        ),
        DieKind::Keep => done(widened(kept(draws, d.args[0] as nat, false)), truly_random, None),
        DieKind::KeepLow => done(widened(kept(draws, d.args[0] as nat, true)), truly_random, None),
        DieKind::RerollOnceAndKeep | DieKind::RerollOnceAndChoose => {
            let count = below(draws, d.args[0]);
            if count == 0 {
                done(widened(draws), truly_random, None)
            } else {
                StepView::More(
                    RollView {
                        dice: d,
                        stage: Stage::Replace,
                        want: Request { count: count as u16, low: d.args[0], high: d.sides },
                        seq: Seq::empty(),
                        fallen: draws,
                        truly_random,
                        depth: 0,
                        index: 0,
                    },
                )
            }
        },
        DieKind::Explode | DieKind::ExplodingSuccess => exploding(
            d,
            widened(draws),
            draws,
            0,
            truly_random,
        ),
        DieKind::Open => opening(d, widened(draws), 0, truly_random),
        DieKind::UpperBound
        | DieKind::LowerBound
        | DieKind::AddUpperBound
        | DieKind::AddLowerBound
        | DieKind::SubtractUpperBound
        | DieKind::SubtractLowerBound => done(
            bounded(draws, modifier_of(d), bound_of(d), is_upper(d.kind)),
            truly_random,
            None,
        ),
        DieKind::OpenEnded | DieKind::OpenEndedImplicit => ending(
            d,
            draws,
            Seq::new(draws.len(), |i: int| 0i32),
            0,
            truly_random,
        ),
    }
}

/// How a roll goes on when the numbers `draws` arrive that it asked for,
/// from the oracle if `fresh` is set.
///
/// The first numbers are the dice as they fall; what becomes of them is
/// [`first_batch`]. Numbers that replace low values are put in their
/// place. Numbers for exploding dice are more dice of the result. A number
/// for an open die is added to it, and the die is rolled again while it
/// shows the highest face and its limit allows. A number for an open-ended
/// die is added to what the die counts, or taken from it if the die opened
/// downward, and the die is rolled on unless the number is too low to open
/// upward.
pub open spec fn advanced(r: RollView, draws: Seq<u16>, fresh: bool) -> StepView {
    let d = r.dice;
    let truly_random = r.truly_random && fresh;
    match r.stage {
        Stage::First => first_batch(d, draws, truly_random),
        Stage::Replace => done(
            widened(merged(r.fallen, draws, d.args[0], d.kind is RerollOnceAndChoose)),
            truly_random,
            None,
        ),
        Stage::Explode => exploding(
            d,
            r.seq + widened(draws),
            draws,
            (r.depth + 1) as u16,
            truly_random,
        ),
        Stage::Open => {
            let seq = r.seq.update(r.index, (r.seq[r.index] + draws[0]) as i32);
            if draws[0] == d.sides && r.depth + 1 < d.args[0] {
                StepView::More(
                    RollView { seq, truly_random, depth: (r.depth + 1) as u16, ..r },
                )
            } else {
                opening(d, seq, r.index + 1, truly_random)
            }
        },
        Stage::Ended => {
            let value = if r.fallen[r.index] >= high_of(d) {
                clamp32(r.seq[r.index] + draws[0])
            } else {
                clamp32(r.seq[r.index] - draws[0])
            };
            let seq = r.seq.update(r.index, value);
            if draws[0] < high_of(d) {
                ending(d, r.fallen, seq, r.index + 1, truly_random)
            } else {
                StepView::More(RollView { seq, truly_random, ..r })
            }
        },
    }
}

/// What holds of every roll under way.
pub open spec fn valid_roll(r: RollView) -> bool {
    let d = r.dice;
    &&& valid_dice(d)
    &&& started(d) is More
    &&& r.want.high == d.sides
    &&& r.want.low <= r.want.high
    &&& match r.stage {
        Stage::First => started(d) == StepView::More(r),
        Stage::Replace => {
            &&& d.kind is RerollOnceAndKeep || d.kind is RerollOnceAndChoose
            &&& r.fallen.len() == d.amount
            &&& forall|j: int| 0 <= j < r.fallen.len() ==> 1 <= #[trigger] r.fallen[j] <= d.sides
            &&& r.want.count == below(r.fallen, d.args[0])
            &&& r.want.count > 0
            &&& r.want.low == d.args[0]
        },
        Stage::Explode => {
            &&& d.kind is Explode || d.kind is ExplodingSuccess
            &&& r.depth < d.args[0]
            &&& r.want.count > 0
            &&& r.want.low == 1
            &&& r.seq.len() >= d.amount
            &&& forall|j: int| 0 <= j < r.seq.len() ==> 1 <= #[trigger] r.seq[j] <= d.sides
        },
        Stage::Open => {
            &&& d.kind is Open
            &&& r.want == Request { count: 1, low: 1, high: d.sides }
            &&& 0 <= r.index < r.seq.len() == d.amount
            &&& r.depth < d.args[0]
            &&& r.seq[r.index] <= (r.depth + 1) * MAX_SIDES
            &&& forall|j: int| 0 <= j < r.seq.len() ==> 1 <= #[trigger] r.seq[j]
            &&& forall|j: int| r.index < j < r.seq.len() ==> #[trigger] r.seq[j] <= d.sides
        },
        Stage::Ended => {
            &&& d.kind is OpenEnded || d.kind is OpenEndedImplicit
            &&& r.want == Request { count: 1, low: 1, high: d.sides }
            &&& 0 <= r.index < r.seq.len() == r.fallen.len() == d.amount
            &&& r.fallen[r.index] >= high_of(d) || r.fallen[r.index] <= d.args[0]
        },
    }
}

/// What a step of a roll must be, given what the oracle sent: the body of
/// its answer, or nothing. If the answer can be read, the roll goes on with
/// the numbers that it holds. If not, it goes on with some numbers that
/// answer the request, and the result will not be called truly random.
pub open spec fn resumed(r: RollView, reply: Option<Seq<char>>, step: StepView) -> bool {
    match received(reply, r.want) {
        Ok(draws) => step == advanced(r, draws, true),
        Err(_) => exists|draws: Seq<u16>| meets(draws, r.want) && step == advanced(r, draws, false),
    }
}

/// A roll under way: it waits for the numbers that [`Roll::request`] names.
#[derive(Debug)]
pub struct Roll {
    dice: Dice,
    stage: Stage,
    want: Request,
    seq: Vec<i32>,
    fallen: Vec<u16>,
    truly_random: bool,
    depth: u16,
    index: usize,
}

impl View for Roll {
    type V = RollView;

    closed spec fn view(&self) -> RollView {
        RollView {
            dice: self.dice@,
            stage: self.stage,
            want: self.want,
            seq: self.seq@,
            fallen: self.fallen@,
            truly_random: self.truly_random,
            depth: self.depth,
            index: self.index as int,
        }
    }
}

/// What a step of a roll gives: the end, or a roll that asks for more.
#[derive(Debug)]
pub enum Step {
    /// The roll has ended, with a result or an error.
    Done(Result<DiceResult, DiceError>),
    /// The roll asks for more numbers.
    More(Roll),
}

impl View for Step {
    type V = StepView;

    open spec fn view(&self) -> StepView {
        match self {
            Step::Done(Ok(result)) => StepView::Done(Ok(result@)),
            Step::Done(Err(error)) => StepView::Done(Err(error.kind)),
            Step::More(roll) => StepView::More(roll@),
        }
    }
}

/// The end of a roll with the values `seq`.
fn finish(seq: Vec<i32>, truly_random: bool, threshold: Option<u16>) -> (step: Step)
    ensures
        step@ == done(seq@, truly_random, threshold),
{
    Step::Done(Ok(DiceResult::new(seq, truly_random, threshold)))
}

/// The end of a roll with one value.
fn finish_single(value: i32) -> (step: Step)
    ensures
        step@ == single(value as int),
{
    let mut seq: Vec<i32> = Vec::new();
    seq.push(value);
    assert(seq@ == seq![value]);
    Step::Done(Ok(DiceResult::new(seq, true, None)))
}

/// The end of a roll with an error.
fn fail(kind: ErrorKind) -> (step: Step)
    ensures
        step@ == failed(kind),
{
    Step::Done(Err(DiceError::new(kind)))
}

/// What the operation adds to each value, and its bound.
fn bounds(dice: &Dice) -> (r: (i32, u16, bool))
    requires
        is_bounded(dice@.kind),
    ensures
        r.0 == modifier_of(dice@),
        r.1 == bound_of(dice@),
        r.2 == is_upper(dice@.kind),
        -65535 <= r.0 <= 65535,
{
    let args = dice.args();
    match dice.kind() {
        DieKind::UpperBound => (0, args[0], true),
        DieKind::LowerBound => (0, args[0], false),
        DieKind::AddUpperBound => (args[0] as i32, args[1], true),
        DieKind::AddLowerBound => (args[0] as i32, args[1], false),
        DieKind::SubtractUpperBound => (-(args[0] as i32), args[1], true),
        _ => (-(args[0] as i32), args[1], false),
    }
}

/// The value from which a die of an open-ended term opens upward.
fn high(dice: &Dice) -> (h: i32)
    requires
        dice@.kind is OpenEnded || dice@.kind is OpenEndedImplicit,
    ensures
        h == high_of(dice@),
{
    let args = dice.args();
    match dice.kind() {
        DieKind::OpenEnded => args[1] as i32,
        _ => dice.sides() as i32 + 1 - args[0] as i32,
    }
}

impl Roll {
    #[verifier::type_invariant]
    spec fn valid(&self) -> bool {
        valid_roll(self@)
    }

    /// The numbers that the roll waits for.
    pub fn request(&self) -> (want: Request)
        ensures
            want == self@.want,
            want.low <= want.high,
            valid_roll(self@),
    {
        proof {
            use_type_invariant(self);
        }
        self.want
    }

    /// Whether `draws` answer the request of the roll, so that it can go on
    /// with them.
    pub fn accepts(&self, draws: &Vec<u16>) -> (b: bool)
        ensures
            b == meets(draws@, self@.want),
    {
        if draws.len() != self.want.count as usize {
            return false;
        }
        let mut i: usize = 0;
        while i < draws.len()
            invariant
                i <= draws.len(),
                forall|k: int|
                    0 <= k < i ==> self.want.low <= #[trigger] draws@[k] <= self.want.high,
            decreases draws.len() - i,
        {
            if draws[i] < self.want.low || draws[i] > self.want.high {
                return false;
            }
            i += 1;
        }
        true
    }

    /// The term that is rolled.
    pub fn dice(&self) -> (dice: &Dice)
        ensures
            dice@ == self@.dice,
    {
        &self.dice
    }

    /// The roll that asks for one number for each die.
    fn begin(dice: &Dice, low: u16) -> (step: Step)
        requires
            started(dice@) == first(dice@, low),
        ensures
            step@ == first(dice@, low),
    {
        let amount = dice.amount();
        let sides = dice.sides();
        Step::More(
            Roll {
                dice: dice.duplicate(),
                stage: Stage::First,
                want: Request { count: amount, low, high: sides },
                seq: Vec::new(),
                fallen: Vec::new(),
                truly_random: true,
                depth: 0,
                index: 0,
            },
        )
    }

    /// How exploding dice go on after a batch fell. See [`exploding`].
    fn explode(
        dice: Dice,
        seq: Vec<i32>,
        batch: &Vec<u16>,
        depth: u16,
        truly_random: bool,
    ) -> (step: Step)
        requires
            started(dice@) is More,
            dice@.kind is Explode || dice@.kind is ExplodingSuccess,
            seq.len() >= dice@.amount,
            forall|j: int| 0 <= j < seq.len() ==> 1 <= #[trigger] seq[j] <= dice@.sides,
            batch.len() <= u16::MAX,
        ensures
            step@ == exploding(dice@, seq@, batch@, depth, truly_random),
    {
        let sides = dice.sides();
        let limit = dice.args()[0];
        let count = count_maxed(batch, sides);
        if count == 0 || depth >= limit {
            let threshold = match dice.kind() {
                DieKind::ExplodingSuccess => Some(dice.args()[1]),
                _ => None,
            };
            finish(seq, truly_random, threshold)
        } else {
            Step::More(
                Roll {
                    dice,
                    stage: Stage::Explode,
                    want: Request { count: count as u16, low: 1, high: sides },
                    seq,
                    fallen: Vec::new(),
                    truly_random,
                    depth,
                    index: 0,
                },
            )
        }
    }

    /// How open dice go on once the dice before `from` are settled. See
    /// [`opening`].
    fn open(dice: Dice, seq: Vec<i32>, from: usize, truly_random: bool) -> (step: Step)
        requires
            started(dice@) is More,
            dice@.kind is Open,
            seq.len() == dice@.amount,
            forall|j: int| 0 <= j < seq.len() ==> 1 <= #[trigger] seq[j],
            forall|j: int| from <= j < seq.len() ==> #[trigger] seq[j] <= dice@.sides,
        ensures
            step@ == opening(dice@, seq@, from as int, truly_random),
    {
        let sides = dice.sides();
        let limit = dice.args()[0];
        let at = find_top(&seq, from, sides);
        if limit == 0 || at >= seq.len() {
            finish(seq, truly_random, None)
        } else {
            Step::More(
                Roll {
                    dice,
                    stage: Stage::Open,
                    want: Request { count: 1, low: 1, high: sides },
                    seq,
                    fallen: Vec::new(),
                    truly_random,
                    depth: 0,
                    index: at,
                },
            )
        }
    }

    /// How open-ended dice go on once the dice before `from` are settled. See
    /// [`ending`].
    fn end(
        dice: Dice,
        fallen: Vec<u16>,
        seq: Vec<i32>,
        from: usize,
        truly_random: bool,
    ) -> (step: Step)
        requires
            started(dice@) is More,
            dice@.kind is OpenEnded || dice@.kind is OpenEndedImplicit,
            seq.len() == fallen.len() == dice@.amount,
        ensures
            step@ == ending(dice@, fallen@, seq@, from as int, truly_random),
    {
        let sides = dice.sides();
        let low = dice.args()[0];
        let top = high(&dice) as u16;
        let at = find_open(&fallen, from, low, top);
        if at >= fallen.len() {
            finish(seq, truly_random, None)
        } else {
            Step::More(
                Roll {
                    dice,
                    stage: Stage::Ended,
                    want: Request { count: 1, low: 1, high: sides },
                    seq,
                    fallen,
                    truly_random,
                    depth: 0,
                    index: at,
                },
            )
        }
    }

    /// What becomes of the dice as they first fell. See [`first_batch`].
    fn settle_first(dice: Dice, draws: Vec<u16>, truly_random: bool) -> (step: Step)
        requires
            started(dice@) is More,
            draws.len() == dice@.amount,
            forall|i: int| 0 <= i < draws.len() ==> 1 <= #[trigger] draws[i] <= dice@.sides
                || dice@.kind is Reroll,
        ensures
            step@ == first_batch(dice@, draws@, truly_random),
    {
        let sides = dice.sides();
        match dice.kind() {
            DieKind::Regular | DieKind::Reroll => finish(widen(&draws), truly_random, None),
            DieKind::Success => {
                let threshold = dice.args()[0];
                finish(widen(&draws), truly_random, Some(threshold))
            },
            DieKind::Drop => {
                let k = dice.args()[0] as usize;
                finish(widen(&drop(&draws, k, false)), truly_random, None)
            },
            DieKind::DropHigh => {
                let k = dice.args()[0] as usize;
                finish(widen(&drop(&draws, k, true)), truly_random, None)
            },
            DieKind::Keep => {
                let k = dice.args()[0] as usize;
                finish(widen(&keep(&draws, k, false)), truly_random, None)
            },
            DieKind::KeepLow => {
                let k = dice.args()[0] as usize;
                finish(widen(&keep(&draws, k, true)), truly_random, None)
            },
            DieKind::RerollOnceAndKeep | DieKind::RerollOnceAndChoose => {
                let threshold = dice.args()[0];
                let count = count_below(&draws, threshold);
                if count == 0 {
                    finish(widen(&draws), truly_random, None)
                } else {
                    Step::More(
                        Roll {
                            dice,
                            stage: Stage::Replace,
                            want: Request { count: count as u16, low: threshold, high: sides },
                            seq: Vec::new(),
                            fallen: draws,
                            truly_random,
                            depth: 0,
                            index: 0,
                        },
                    )
                }
            },
            DieKind::Explode | DieKind::ExplodingSuccess => {
                let seq = widen(&draws);
                Roll::explode(dice, seq, &draws, 0, truly_random)
            },
            DieKind::Open => {
                let seq = widen(&draws);
                Roll::open(dice, seq, 0, truly_random)
            },
            DieKind::UpperBound
            | DieKind::LowerBound
            | DieKind::AddUpperBound
            | DieKind::AddLowerBound
            | DieKind::SubtractUpperBound
            | DieKind::SubtractLowerBound => {
                let (modifier, bound, upper) = bounds(&dice);
                finish(bound_all(&draws, modifier, bound, upper), truly_random, None)
            },
            DieKind::OpenEnded | DieKind::OpenEndedImplicit => {
                let mut seq: Vec<i32> = Vec::new();
                let mut i: usize = 0;
                while i < draws.len()
                    invariant
                        i <= draws.len(),
                        seq.len() == i,
                        forall|k: int| 0 <= k < i ==> seq[k] == 0,
                    decreases draws.len() - i,
                {
                    seq.push(0);
                    i += 1;
                }
                assert(seq@ == Seq::new(draws.len() as nat, |i: int| 0i32));
                Roll::end(dice, draws, seq, 0, truly_random)
            },
        }
    }

    /// Goes on with the numbers `draws`, which answer the request of the
    /// roll; `fresh` says that they came from the oracle. See [`advanced`].
    pub fn advance(self, draws: Vec<u16>, fresh: bool) -> (step: Step)
        requires
            meets(draws@, self@.want),
        ensures
            step@ == advanced(self@, draws@, fresh),
    {
        proof {
            use_type_invariant(&self);
        }
        let Roll { dice, stage, want, seq, fallen, truly_random, depth, index } = self;
        let truly_random = truly_random && fresh;
        let sides = dice.sides();
        match stage {
            Stage::First => Roll::settle_first(dice, draws, truly_random),
            Stage::Replace => {
                let threshold = dice.args()[0];
                let choose = match dice.kind() {
                    DieKind::RerollOnceAndChoose => true,
                    _ => false,
                };
                let out = merge(&fallen, &draws, threshold, choose);
                finish(widen(&out), truly_random, None)
            },
            Stage::Explode => {
                let mut seq = seq;
                let more = widen(&draws);
                let mut i: usize = 0;
                let ghost start = seq@;
                while i < more.len()
                    invariant
                        i <= more.len(),
                        seq@ == start + more@.take(i as int),
                        forall|j: int| 0 <= j < seq.len() ==> 1 <= #[trigger] seq[j] <= sides,
                        forall|j: int| 0 <= j < more.len() ==> 1 <= #[trigger] more[j] <= sides,
                    decreases more.len() - i,
                {
                    seq.push(more[i]);
                    i += 1;
                }
                assert(more@.take(more.len() as int) == more@);
                Roll::explode(dice, seq, &draws, depth + 1, truly_random)
            },
            Stage::Open => {
                let mut seq = seq;
                let limit = dice.args()[0];
                let x = draws[0];
                let value = seq[index] + x as i32;
                seq.set(index, value);
                if x == sides && depth + 1 < limit {
                    Step::More(
                        Roll {
                            dice,
                            stage,
                            want,
                            seq,
                            fallen,
                            truly_random,
                            depth: depth + 1,
                            index,
                        },
                    )
                } else {
                    Roll::open(dice, seq, index + 1, truly_random)
                }
            },
            Stage::Ended => {
                let mut seq = seq;
                let top = high(&dice);
                let x = draws[0];
                let value = if fallen[index] as i32 >= top {
                    add_clamped(seq[index], x as i32)
                } else {
                    sub_clamped(seq[index], x as i32)
                };
                seq.set(index, value);
                if (x as i32) < top {
                    Roll::end(dice, fallen, seq, index + 1, truly_random)
                } else {
                    Step::More(
                        Roll { dice, stage, want, seq, fallen, truly_random, depth, index },
                    )
                }
            },
        }
    }

    /// Goes on with what the oracle sent: the body of its answer, or nothing
    /// if it could not be reached. See [`resumed`].
    pub fn resume(self, reply: Option<&str>) -> (step: Step)
        ensures
            resumed(self@, sent(reply), step@),
    {
        let want = self.request();
        let (draws, fresh) = settle(reply, want);
        self.advance(draws, fresh)
    }
}

impl Dice {
    /// Begins to roll the dice. See [`started`].
    pub fn roll(&self) -> (step: Step)
        ensures
            step@ == started(self@),
    {
        let amount = self.amount();
        let sides = self.sides();
        let args = self.args();
        if amount == 0 || sides == 0 {
            return Step::Done(Ok(DiceResult::zero()));
        }
        match self.kind() {
            DieKind::Regular => {
                if sides == 1 {
                    finish_single(amount as i32)
                } else {
                    Roll::begin(self, 1)
                }
            },
            DieKind::Reroll => {
                if args[0] > sides {
                    fail(ErrorKind::DiceExprInvalidArgument)
                } else if sides == 1 {
                    finish_single(amount as i32)
                } else {
                    Roll::begin(self, args[0])
                }
            },
            DieKind::Success => {
                if args[0] > sides {
                    finish_single(0)
                } else if sides == 1 {
                    finish_single(amount as i32)
                } else {
                    Roll::begin(self, 1)
                }
            },
            DieKind::Drop | DieKind::DropHigh => {
                if args[0] > amount {
                    fail(ErrorKind::DiceExprInvalidArgument)
                } else if sides == 1 {
                    finish_single((amount - args[0]) as i32)
                } else {
                    Roll::begin(self, 1)
                }
            },
            DieKind::Keep | DieKind::KeepLow => {
                if args[0] > amount {
                    fail(ErrorKind::DiceExprInvalidArgument)
                } else if sides == 1 {
                    finish_single(args[0] as i32)
                } else {
                    Roll::begin(self, 1)
                }
            },
            DieKind::RerollOnceAndKeep | DieKind::RerollOnceAndChoose => {
                if args[0] > sides {
                    fail(ErrorKind::DiceExprInvalidArgument)
                } else if sides == 1 {
                    finish_single(amount as i32)
                } else {
                    Roll::begin(self, 1)
                }
            },
            DieKind::Explode | DieKind::Open => {
                if sides == 1 {
                    fail(ErrorKind::DiceExprInvalidSides)
                } else {
                    Roll::begin(self, 1)
                }
            },
            DieKind::ExplodingSuccess => {
                if args[1] > sides {
                    fail(ErrorKind::DiceExprInvalidArgument)
                } else if sides == 1 {
                    fail(ErrorKind::DiceExprInvalidSides)
                } else {
                    Roll::begin(self, 1)
                }
            },
            DieKind::UpperBound
            | DieKind::LowerBound
            | DieKind::AddUpperBound
            | DieKind::AddLowerBound
            | DieKind::SubtractUpperBound
            | DieKind::SubtractLowerBound => {
                if sides == 1 {
                    let (modifier, bound, upper) = bounds(self);
                    let each = bound_one(1, modifier, bound, upper);
                    assert(0 <= amount * each <= 50 * 131070) by (nonlinear_arith)
                        requires
                            0 <= amount <= 50,
                            0 <= each <= 131070,
                    ;
                    finish_single(amount as i32 * each)
                } else {
                    Roll::begin(self, 1)
                }
            },
            DieKind::OpenEnded | DieKind::OpenEndedImplicit => {
                if sides == 1 {
                    fail(ErrorKind::DiceExprInvalidSides)
                } else {
                    let top = high(self);
                    if !((args[0] as i32) < top && top <= sides as i32) {
                        fail(ErrorKind::DiceExprInvalidArgument)
                    } else {
                        Roll::begin(self, 1)
                    }
                }
            },
        }
    }
}

} // verus!
