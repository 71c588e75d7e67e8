//! What holds of every roll and of every reading, whatever the dice and
//! whatever the oracle answers.

use crate::arith::{clamp32, sum_of};
use crate::compound::{
    collapsed, expression_of, first_error, flipped, is_sign, lemma_first_field, lemma_ops_len,
    normal_form, ops_of, settled, terms_of, valid_compound, CompoundView, DiceArithmeticOp,
};
use crate::dice::{
    assembled, term_of, valid_dice, DiceView, DEFAULT_SIDES, MAX_AMOUNT, MAX_SIDES,
};
use crate::error::ErrorKind;
use crate::evaluate::{
    combined, divides_by_zero, failures, folded, paired, sums_of, CompoundResultView,
};
use crate::kind::DieKind;
use crate::oracle::meets;
use crate::result::{aggregate_of, DiceResultView};
use crate::roll::{
    advanced, bound_of, high_of, is_bounded, started, threshold_of, valid_roll, RollView, Stage,
    StepView,
};
use crate::rules::{
    below, lemma_below_len, lemma_maxed_len, lemma_merged_within, lemma_next_open, lemma_next_top,
    merged, widened,
};
use crate::select::{
    dropped, kept, lemma_partition, lemma_picked_len, lemma_pivot_exists, lemma_within, pivot_of,
};
use crate::text::{fields, lemma_fields_len, number_of, without_spaces};
use vstd::prelude::*;

verus! {

/// What an answer of the oracle is made of: the numbers, and whether they
/// are truly random.
pub type Answer = (Seq<u16>, bool);

/// Where a roll stands after the oracle has given `answers`, one after the
/// other. The roll stays where it is when it has ended, when the answers
/// are used up, and at an answer that is not what it asked for.
pub open spec fn played(step: StepView, answers: Seq<Answer>) -> StepView
    decreases answers.len(),
{
    if answers.len() == 0 {
        step
    } else {
        match step {
            StepView::More(r) => if meets(answers[0].0, r.want) {
                played(advanced(r, answers[0].0, answers[0].1), answers.drop_first())
            } else {
                step
            },
            StepView::Done(_) => step,
        }
    }
}

/// Whether every value of `seq` lies from `low` to `high`.
pub open spec fn within(seq: Seq<i32>, low: int, high: int) -> bool {
    forall|i: int| 0 <= i < seq.len() ==> low <= #[trigger] seq[i] <= high
}

/// What the result of some dice that were cast is like: how many values it
/// has, where they lie, and whether it counts successes.
pub open spec fn conforms(d: DiceView, result: DiceResultView) -> bool {
    let n = result.seq.len();
    &&& result.success_threshold == threshold_of(d)
    &&& match d.kind {
        DieKind::Regular | DieKind::Success => {
            &&& n == d.amount
            &&& within(result.seq, 1, d.sides as int)
        },
        DieKind::Reroll => {
            &&& n == d.amount
            &&& within(result.seq, d.args[0] as int, d.sides as int)
        },
        DieKind::RerollOnceAndKeep | DieKind::RerollOnceAndChoose => {
            &&& n == d.amount
            &&& within(result.seq, d.args[0] as int, d.sides as int)
            &&& within(result.seq, 1, d.sides as int)
        },
        DieKind::Explode | DieKind::ExplodingSuccess => {
            &&& n >= d.amount
            &&& within(result.seq, 1, d.sides as int)
        },
        DieKind::Drop | DieKind::DropHigh => {
            &&& n == d.amount - d.args[0]
            &&& within(result.seq, 1, d.sides as int)
        },
        DieKind::Keep | DieKind::KeepLow => {
            &&& n == d.args[0]
            &&& within(result.seq, 1, d.sides as int)
        },
        DieKind::Open => {
            &&& n == d.amount
            &&& forall|i: int| 0 <= i < n ==> 1 <= #[trigger] result.seq[i]
        },
        DieKind::UpperBound | DieKind::AddUpperBound | DieKind::SubtractUpperBound => {
            &&& n == d.amount
            &&& within(result.seq, 0, bound_of(d) as int)
        },
        DieKind::LowerBound | DieKind::AddLowerBound | DieKind::SubtractLowerBound => {
            &&& n == d.amount
            &&& forall|i: int| 0 <= i < n ==> bound_of(d) <= #[trigger] result.seq[i]
        },
        DieKind::OpenEnded | DieKind::OpenEndedImplicit => n == d.amount,
    }
}

/// Whether a step of a roll of `d` is as it should be: a roll under way is
/// valid and still rolls `d`, a result conforms, and no error has come up.
pub open spec fn sound(d: DiceView, step: StepView) -> bool {
    match step {
        StepView::More(r) => valid_roll(r) && r.dice == d,
        StepView::Done(Ok(result)) => conforms(d, result),
        StepView::Done(Err(_)) => false,
    }
}

/// As many values stay as are kept, if there are that many.
pub proof fn lemma_kept_len(values: Seq<u16>, k: nat, lowest: bool)
    requires
        k <= values.len(),
    ensures
        kept(values, k, lowest).len() == k,
{
    if k > 0 {
        lemma_pivot_exists(values, k, lowest);
        lemma_picked_len(values, k, pivot_of(values, k, lowest), lowest);
    }
}

/// As many values go as are dropped, if there are that many.
pub proof fn lemma_dropped_len(values: Seq<u16>, k: nat, highest: bool)
    requires
        k <= values.len(),
    ensures
        dropped(values, k, highest).len() == values.len() - k,
{
    let p = pivot_of(values, k, !highest);
    lemma_partition(values, k, p, !highest);
    if k > 0 {
        lemma_pivot_exists(values, k, !highest);
        lemma_picked_len(values, k, p, !highest);
    }
}

/// A roll that asks for numbers is valid from the start.
pub proof fn lemma_started_sound(d: DiceView)
    requires
        valid_dice(d),
    ensures
        match started(d) {
            StepView::More(r) => valid_roll(r) && r.dice == d && d.amount > 0 && d.sides > 1,
            _ => true,
        },
{
}

/// A valid roll that gets what it asked for goes on as a valid roll of the
/// same dice, or ends with a result that conforms.
pub proof fn lemma_advanced_sound(r: RollView, draws: Seq<u16>, fresh: bool)
    requires
        valid_roll(r),
        meets(draws, r.want),
    ensures
        sound(r.dice, advanced(r, draws, fresh)),
{
    let d = r.dice;
    match r.stage {
        Stage::First => {
            match d.kind {
                DieKind::Drop => {
                    lemma_dropped_len(draws, d.args[0] as nat, false);
                    lemma_within(
                        draws,
                        d.args[0] as nat,
                        pivot_of(draws, d.args[0] as nat, true),
                        true,
                        1,
                        d.sides,
                    );
                },
                DieKind::DropHigh => {
                    lemma_dropped_len(draws, d.args[0] as nat, true);
                    lemma_within(
                        draws,
                        d.args[0] as nat,
                        pivot_of(draws, d.args[0] as nat, false),
                        false,
                        1,
                        d.sides,
                    );
                },
                DieKind::Keep => {
                    lemma_kept_len(draws, d.args[0] as nat, false);
                    lemma_within(
                        draws,
                        d.args[0] as nat,
                        pivot_of(draws, d.args[0] as nat, false),
                        false,
                        1,
                        d.sides,
                    );
                },
                DieKind::KeepLow => {
                    lemma_kept_len(draws, d.args[0] as nat, true);
                    lemma_within(
                        draws,
                        d.args[0] as nat,
                        pivot_of(draws, d.args[0] as nat, true),
                        true,
                        1,
                        d.sides,
                    );
                },
                DieKind::RerollOnceAndKeep | DieKind::RerollOnceAndChoose => {
                    lemma_below_len(draws, d.args[0]);
                    if below(draws, d.args[0]) == 0 {
                        lemma_merged_within(draws, Seq::empty(), d.args[0], false, d.sides);
                        assert(merged(draws, Seq::empty(), d.args[0], false) == draws);
                    }
                },
                DieKind::Explode | DieKind::ExplodingSuccess => {
                    lemma_maxed_len(draws, d.sides);
                },
                DieKind::Open => {
                    lemma_next_top(widened(draws), 0, d.sides);
                },
                DieKind::OpenEnded | DieKind::OpenEndedImplicit => {
                    lemma_next_open(draws, 0, d.args[0], high_of(d) as u16);
                },
                _ => {},
            }
        },
        Stage::Replace => {
            lemma_merged_within(
                r.fallen,
                draws,
                d.args[0],
                d.kind is RerollOnceAndChoose,
                d.sides,
            );
        },
        Stage::Explode => {
            lemma_maxed_len(draws, d.sides);
        },
        Stage::Open => {
            let seq = r.seq.update(r.index, (r.seq[r.index] + draws[0]) as i32);
            lemma_next_top(seq, r.index + 1, d.sides);
        },
        Stage::Ended => {
            lemma_next_open(r.fallen, r.index + 1, d.args[0], high_of(d) as u16);
        },
    }
}

/// Whatever the oracle answers, a roll of valid dice stays sound.
pub proof fn lemma_played_sound(d: DiceView, step: StepView, answers: Seq<Answer>)
    requires
        sound(d, step),
    ensures
        sound(d, played(step, answers)),
    decreases answers.len(),
{
    if answers.len() > 0 {
        match step {
            StepView::More(r) => {
                if meets(answers[0].0, r.want) {
                    lemma_advanced_sound(r, answers[0].0, answers[0].1);
                    lemma_played_sound(
                        d,
                        advanced(r, answers[0].0, answers[0].1),
                        answers.drop_first(),
                    );
                }
            },
            StepView::Done(_) => {},
        }
    }
}

/// Whatever the oracle answers, the result of dice that were cast is as the
/// operation makes it: it has as many values as the operation leaves, they
/// lie where the faces of the dice, the threshold or the bound put them,
/// and the threshold of successes is attached where successes are counted.
pub proof fn law_results_conform(d: DiceView, answers: Seq<Answer>, result: DiceResultView)
    requires
        valid_dice(d),
        started(d) is More,
        played(started(d), answers) == StepView::Done(Ok::<DiceResultView, ErrorKind>(result)),
    ensures
        conforms(d, result),
{
    lemma_started_sound(d);
    lemma_played_sound(d, started(d), answers);
}

/// How many values the operation of a term leaves: one for each die; of
/// dice that drop, one for each die that stays; of dice that keep, as many
/// as are kept.
pub open spec fn values_left(d: DiceView) -> int {
    match d.kind {
        DieKind::Drop | DieKind::DropHigh => d.amount - d.args[0],
        DieKind::Keep | DieKind::KeepLow => d.args[0] as int,
        _ => d.amount as int,
    }
}

/// A result has a value for each die that the operation leaves, whatever
/// the oracle answered; of dice that explode, it has one for each die or
/// more. This holds of dice that were cast. Dice that were not cast give a
/// single value, so it holds of them where a single value is what the
/// operation leaves.
pub proof fn law_values_for_each_die(d: DiceView, answers: Seq<Answer>, result: DiceResultView)
    requires
        valid_dice(d),
        d.amount > 0,
        d.sides > 0,
        played(started(d), answers) == StepView::Done(Ok::<DiceResultView, ErrorKind>(result)),
        started(d) is More || values_left(d) == 1,
    ensures
        d.kind is Explode || d.kind is ExplodingSuccess || result.seq.len() == values_left(d),
        (d.kind is Explode || d.kind is ExplodingSuccess) ==> result.seq.len() >= d.amount,
{
    if started(d) is More {
        law_results_conform(d, answers, result);
    } else {
        assert(played(started(d), answers) == started(d));
    }
}

/// Plain dice show one of their faces: whatever the oracle answered, each
/// value of plain dice lies between one and the number of sides. Several
/// dice of one side are left out: they are not cast, and come to their
/// number.
pub proof fn law_plain_dice_show_a_face(d: DiceView, answers: Seq<Answer>, result: DiceResultView)
    requires
        valid_dice(d),
        d.kind is Regular,
        !(d.sides == 1 && d.amount > 1),
        played(started(d), answers) == StepView::Done(Ok::<DiceResultView, ErrorKind>(result)),
    ensures
        forall|i: int| 0 <= i < result.seq.len() ==> 1 <= #[trigger] result.seq[i] <= d.sides,
{
    if started(d) is More {
        law_results_conform(d, answers, result);
    } else {
        assert(played(started(d), answers) == started(d));
    }
}

/// Rerolled dice reach their threshold: whatever the oracle answered, and
/// whether the dice were cast or not, no value of the result is lower than
/// the threshold.
pub proof fn law_rerolled_dice_reach_the_threshold(
    d: DiceView,
    answers: Seq<Answer>,
    result: DiceResultView,
)
    requires
        valid_dice(d),
        d.kind is Reroll,
        played(started(d), answers) == StepView::Done(Ok::<DiceResultView, ErrorKind>(result)),
    ensures
        forall|i: int| 0 <= i < result.seq.len() ==> #[trigger] result.seq[i] >= d.args[0],
{
    if started(d) is More {
        law_results_conform(d, answers, result);
    } else {
        assert(played(started(d), answers) == started(d));
    }
}

/// Dice are cast unless there are none, they have fewer than two sides, or
/// an argument does not suit them; a threshold of successes that no die can
/// reach counts as such an argument.
pub proof fn law_when_dice_are_cast(d: DiceView)
    requires
        valid_dice(d),
    ensures
        started(d) is More ==> d.amount > 0 && d.sides > 1,
        d.amount > 0 && d.sides > 1 && (d.kind is Regular || is_bounded(d.kind) || d.kind is Explode
            || d.kind is Open) ==> started(d) is More,
        d.amount > 0 && d.sides > 1 && (d.kind is Reroll || d.kind is Success
            || d.kind is RerollOnceAndKeep || d.kind is RerollOnceAndChoose) ==> (started(d) is More
            <==> d.args[0] <= d.sides),
        d.amount > 0 && d.sides > 1 && (d.kind is Drop || d.kind is DropHigh || d.kind is Keep
            || d.kind is KeepLow) ==> (started(d) is More <==> d.args[0] <= d.amount),
        d.amount > 0 && d.sides > 1 && d.kind is ExplodingSuccess ==> (started(d) is More
            <==> d.args[1] <= d.sides),
{
}

/// A roll never ends with an error once the dice are cast.
pub proof fn law_no_error_once_cast(d: DiceView, answers: Seq<Answer>)
    requires
        valid_dice(d),
        started(d) is More,
    ensures
        !(played(started(d), answers) matches StepView::Done(Err(_))),
{
    lemma_started_sound(d);
    lemma_played_sound(d, started(d), answers);
}

/// Whether the oracle has given every answer that a roll uses of `answers`.
pub open spec fn all_fresh(step: StepView, answers: Seq<Answer>) -> bool
    decreases answers.len(),
{
    if answers.len() == 0 {
        true
    } else {
        match step {
            StepView::More(r) => if meets(answers[0].0, r.want) {
                answers[0].1 && all_fresh(
                    advanced(r, answers[0].0, answers[0].1),
                    answers.drop_first(),
                )
            } else {
                true
            },
            StepView::Done(_) => true,
        }
    }
}

/// Whether a step holds that every answer so far came from the oracle.
pub open spec fn truly_random(step: StepView) -> bool {
    match step {
        StepView::More(r) => r.truly_random,
        StepView::Done(Ok(result)) => result.truly_random,
        StepView::Done(Err(_)) => true,
    }
}

/// One step keeps the mark of true randomness exactly if the answer is
/// fresh.
pub proof fn lemma_advanced_fresh(r: RollView, draws: Seq<u16>, fresh: bool)
    requires
        valid_roll(r),
        meets(draws, r.want),
    ensures
        truly_random(advanced(r, draws, fresh)) == (r.truly_random && fresh),
{
    lemma_advanced_sound(r, draws, fresh);
}

/// A roll keeps the mark of true randomness exactly if every answer that
/// it uses is fresh.
pub proof fn lemma_played_fresh(r: RollView, answers: Seq<Answer>)
    requires
        valid_roll(r),
    ensures
        truly_random(played(StepView::More(r), answers)) == (r.truly_random && all_fresh(
            StepView::More(r),
            answers,
        )),
    decreases answers.len(),
{
    if answers.len() > 0 && meets(answers[0].0, r.want) {
        let next = advanced(r, answers[0].0, answers[0].1);
        lemma_advanced_fresh(r, answers[0].0, answers[0].1);
        lemma_advanced_sound(r, answers[0].0, answers[0].1);
        match next {
            StepView::More(r2) => {
                lemma_played_fresh(r2, answers.drop_first());
            },
            StepView::Done(_) => {
                assert(played(next, answers.drop_first()) == next);
                assert(all_fresh(next, answers.drop_first()));
            },
        }
    }
}

/// The result of dice that were cast is truly random exactly if the oracle
/// has given every answer that the roll used.
pub proof fn law_truly_random(d: DiceView, answers: Seq<Answer>, result: DiceResultView)
    requires
        valid_dice(d),
        started(d) is More,
        played(started(d), answers) == StepView::Done(Ok::<DiceResultView, ErrorKind>(result)),
    ensures
        result.truly_random == all_fresh(started(d), answers),
{
    lemma_started_sound(d);
    lemma_played_fresh(started(d)->More_0, answers);
}

/// A number alone comes to itself: it is rolled without a die being cast,
/// and its result is the number.
pub proof fn law_number_comes_to_itself(s: Seq<char>)
    requires
        number_of(s) is Some,
    ensures
        term_of(s) is Ok,
        started(term_of(s).unwrap()) is Done,
        started(term_of(s).unwrap())->Done_0 is Ok,
        aggregate_of(started(term_of(s).unwrap())->Done_0->Ok_0) == number_of(s).unwrap(),
{
    let n = number_of(s).unwrap();
    let d = term_of(s).unwrap();
    let result = started(d)->Done_0->Ok_0;
    if n == 0 {
        assert(sum_of(result.seq) == 0);
    } else {
        assert(result.seq == seq![n as i32]);
        assert(result.seq.drop_last() == Seq::<i32>::empty());
        assert(sum_of(result.seq.drop_last()) == 0);
        assert(sum_of(result.seq) == n);
    }
}

/// Where the higher of two rolls is chosen, no die ends lower than it first
/// fell: whatever the oracle answered, each value of the result belongs to
/// a die of the first answer, and is no lower than that die. Dice of one
/// side are left out: they are not cast, so that no die has fallen.
pub proof fn law_choice_never_lowers(d: DiceView, answers: Seq<Answer>, result: DiceResultView)
    requires
        valid_dice(d),
        d.kind is RerollOnceAndChoose,
        !(d.sides == 1 && d.amount > 0),
        played(started(d), answers) == StepView::Done(Ok::<DiceResultView, ErrorKind>(result)),
    ensures
        result.seq.len() > 0 ==> answers.len() >= 1 && result.seq.len() == answers[0].0.len(),
        forall|i: int| 0 <= i < result.seq.len() ==> #[trigger] result.seq[i] >= answers[0].0[i],
{
    if started(d) is More {
        lemma_started_sound(d);
        let r0 = started(d)->More_0;
        let first = answers[0].0;
        let step1 = advanced(r0, first, answers[0].1);
        let rest = answers.drop_first();
        assert(played(started(d), answers) == played(step1, rest));
        match step1 {
            StepView::More(r1) => {
                lemma_advanced_sound(r0, first, answers[0].1);
                let second = rest[0].0;
                let step2 = advanced(r1, second, rest[0].1);
                assert(played(step1, rest) == played(step2, rest.drop_first()));
                assert(step2 is Done);
                assert(played(step2, rest.drop_first()) == step2);
                assert(result.seq == widened(merged(first, second, d.args[0], true)));
            },
            StepView::Done(_) => {
                assert(played(step1, rest) == step1);
            },
        }
    } else {
        assert(played(started(d), answers) == started(d));
    }
}

/// Where the higher of two values is chosen, none is lower than before.
pub proof fn law_merge_choice(values: Seq<u16>, again: Seq<u16>, threshold: u16)
    ensures
        merged(values, again, threshold, true).len() == values.len(),
        forall|i: int|
            0 <= i < values.len() ==> #[trigger] merged(values, again, threshold, true)[i]
                >= values[i],
{
}

/// A threshold of successes that no die can reach gives a result that
/// comes to zero, without a die being cast.
pub proof fn law_unreachable_success(d: DiceView)
    requires
        valid_dice(d),
        d.kind is Success,
        d.args[0] > d.sides,
    ensures
        started(d) is Done,
        started(d)->Done_0 is Ok,
        aggregate_of(started(d)->Done_0->Ok_0) == 0,
{
    let result = started(d)->Done_0->Ok_0;
    if d.amount == 0 || d.sides == 0 {
        assert(sum_of(result.seq) == 0);
    } else {
        assert(result.seq == seq![0i32]);
        assert(result.seq.drop_last() == Seq::<i32>::empty());
        assert(sum_of(result.seq.drop_last()) == 0);
        assert(sum_of(result.seq) == 0);
    }
}

/// What is kept and what is dropped make up the roll: the `k` values that
/// are kept and the values that stay when `k` are dropped at the same end
/// hold each value as often as the roll does.
pub proof fn law_kept_and_dropped(values: Seq<u16>, k: nat, lowest: bool)
    ensures
        kept(values, k, lowest).to_multiset().add(dropped(values, k, !lowest).to_multiset())
            == values.to_multiset(),
        kept(values, k, lowest).len() + dropped(values, k, !lowest).len() == values.len(),
{
    lemma_partition(values, k, pivot_of(values, k, lowest), lowest);
}

/// Every term that is read is valid: its amount and its sides are within
/// the limits, and its operation has its arguments.
pub proof fn law_terms_are_valid(s: Seq<char>)
    ensures
        term_of(s) matches Ok(d) ==> valid_dice(d),
{
}

/// The limits come first: too many dice are reported whatever the sides
/// and the arguments are, and too many sides are reported whatever the
/// arguments are, unless there are too many dice.
pub proof fn law_limits_come_first(kind: DieKind, values: Seq<u16>, leading: bool, marked: bool)
    requires
        leading ==> values.len() > 0,
    ensures
        ({
            let used: int = if leading {
                1
            } else {
                0
            };
            let amount = if leading {
                values[0]
            } else {
                1
            };
            let sides = if marked && values.len() > used {
                values[used]
            } else {
                DEFAULT_SIDES
            };
            let read = assembled(kind, values, leading, marked);
            &&& amount > MAX_AMOUNT ==> read == Err::<DiceView, ErrorKind>(
                ErrorKind::DiceAmountTooLarge,
            )
            &&& amount <= MAX_AMOUNT && sides > MAX_SIDES ==> read == Err::<DiceView, ErrorKind>(
                ErrorKind::DiceTooManySides,
            )
            &&& read is Ok ==> read.unwrap().amount == amount && read.unwrap().sides == sides
                && amount <= MAX_AMOUNT && sides <= MAX_SIDES
        }),
{
}

/// Every expression that is read is valid: it has a term, its terms are
/// valid, and an operation stands before each term, or before each but the
/// first.
pub proof fn law_expressions_are_valid(s: Seq<char>)
    ensures
        expression_of(s) matches Ok(c) ==> valid_compound(c),
{
    if expression_of(s) is Ok {
        let c = expression_of(s).unwrap();
        let terms = terms_of(s);
        lemma_ops_len(s);
        if s.len() > 0 {
            lemma_first_field(s);
        }
        assert forall|i: int| 0 <= i < c.dice.len() implies valid_dice(#[trigger] c.dice[i]) by {
            lemma_all_read(terms, i);
        }
    }
}

/// Where no term fails, each can be read.
proof fn lemma_all_read(terms: Seq<Seq<char>>, i: int)
    requires
        0 <= i < terms.len(),
        first_error(terms) is None,
    ensures
        term_of(terms[i]) is Ok,
    decreases terms.len(),
{
    if i > 0 {
        lemma_all_read(terms.drop_first(), i - 1);
    }
}

/// A collapsed text holds no two signs in a row.
pub proof fn law_collapsed_has_no_rows(s: Seq<char>, i: int)
    requires
        0 <= i,
        i + 1 < collapsed(s).len(),
    ensures
        !(is_sign(collapsed(s)[i]) && is_sign(collapsed(s)[i + 1])),
    decreases s.len(),
{
    lemma_collapsed_end(s);
    if s.len() > 0 {
        lemma_collapsed_end(s.drop_last());
        if i + 1 < collapsed(s.drop_last()).len() {
            law_collapsed_has_no_rows(s.drop_last(), i);
        } else if i + 1 == collapsed(s.drop_last()).len() && i >= 1 && is_sign(s.last())
            && s.len() >= 2 && is_sign(s[s.len() - 2]) {
            law_collapsed_has_no_rows(s.drop_last(), i - 1);
        }
    }
}

/// A collapsed text is as long as the text or shorter, empty only if the
/// text is, and ends with a sign exactly if the text does.
pub proof fn lemma_collapsed_end(s: Seq<char>)
    ensures
        collapsed(s).len() <= s.len(),
        s.len() > 0 ==> collapsed(s).len() > 0 && (is_sign(collapsed(s).last()) <==> is_sign(
            s.last(),
        )),
        s.len() > 0 && !is_sign(s.last()) ==> collapsed(s).last() == s.last(),
    decreases s.len(),
{
    if s.len() > 0 {
        lemma_collapsed_end(s.drop_last());
    }
}

/// A plus at the end of an expression says nothing: with it or without it,
/// the expression is read as the same text.
pub proof fn law_plus_at_the_end(s: Seq<char>)
    requires
        s.len() > 0,
        !is_sign(s.last()),
    ensures
        settled(collapsed(s.push('+'))) == settled(collapsed(s)),
{
    lemma_collapsed_end(s);
    assert(s.push('+').drop_last() == s);
    assert(collapsed(s.push('+')) == collapsed(s).push('+'));
    assert(collapsed(s).push('+').drop_last() == collapsed(s));
}

/// A row of signs says what its product says: after a sign, one more minus
/// turns it into the other sign, and one more plus changes nothing.
pub proof fn law_signs_multiply(s: Seq<char>, c: char)
    requires
        s.len() > 0,
        is_sign(s.last()),
        is_sign(c),
    ensures
        collapsed(s.push(c)) == collapsed(s).drop_last().push(
            if c == '+' {
                collapsed(s).last()
            } else if collapsed(s).last() == '+' {
                '-'
            } else {
                '+'
            },
        ),
{
    lemma_collapsed_end(s);
    assert(s.push(c).drop_last() == s);
}

/// White space says nothing: texts that differ in white space only are read
/// as the same expression.
pub proof fn law_white_space(a: Seq<char>, b: Seq<char>)
    requires
        without_spaces(a) == without_spaces(b),
    ensures
        expression_of(normal_form(a)) == expression_of(normal_form(b)),
{
}

/// A term that comes to zero behind a division is an error of its own,
/// where every term could be rolled.
pub proof fn law_division_by_zero(
    c: CompoundView,
    rolls: Seq<Result<DiceResultView, ErrorKind>>,
    i: int,
)
    requires
        failures(rolls) == 0,
        0 <= i < rolls.len(),
        i < paired(c).len(),
        clamp32(sum_of(rolls[i].unwrap().seq)) == 0,
        paired(c)[i] is Divide,
    ensures
        combined(c, rolls) == Err::<CompoundResultView, ErrorKind>(
            ErrorKind::DiceExprDivisionByZero,
        ),
{
    let individuals = Seq::new(rolls.len(), |i: int| rolls[i].unwrap());
    assert(sums_of(individuals)[i] == 0);
    assert(divides_by_zero(sums_of(individuals), paired(c)));
}

/// The total of the first `n` terms in whole numbers of any size.
pub open spec fn exact(sums: Seq<i32>, ops: Seq<DiceArithmeticOp>, n: nat) -> int
    decreases n,
{
    if n == 0 {
        0
    } else {
        let acc = exact(sums, ops, (n - 1) as nat);
        match ops[n - 1] {
            DiceArithmeticOp::Add => acc + sums[n - 1],
            DiceArithmeticOp::Subtract => acc - sums[n - 1],
            DiceArithmeticOp::Multiply => acc * sums[n - 1],
            DiceArithmeticOp::Divide => acc,
        }
    }
}

/// A total is exact as long as it fits: where the exact total stays within
/// thirty-two bits after each term, the total that is computed is the exact
/// one.
pub proof fn law_total_is_exact(sums: Seq<i32>, ops: Seq<DiceArithmeticOp>, n: nat)
    requires
        forall|k: nat| k <= n ==> i32::MIN <= #[trigger] exact(sums, ops, k) <= i32::MAX,
    ensures
        folded(sums, ops, n) == exact(sums, ops, n),
    decreases n,
{
    if n > 0 {
        assert(i32::MIN <= exact(sums, ops, (n - 1) as nat) <= i32::MAX);
        assert forall|k: nat| k <= (n - 1) as nat implies i32::MIN <= #[trigger] exact(sums, ops, k)
            <= i32::MAX by {}
        law_total_is_exact(sums, ops, (n - 1) as nat);
        assert(i32::MIN <= exact(sums, ops, n) <= i32::MAX);
    }
}

/// The other sign: minus for plus and plus for minus.
pub open spec fn turned(op: DiceArithmeticOp) -> DiceArithmeticOp {
    match op {
        DiceArithmeticOp::Add => DiceArithmeticOp::Subtract,
        DiceArithmeticOp::Subtract => DiceArithmeticOp::Add,
        _ => op,
    }
}

/// Operations with every sign turned into the other.
pub open spec fn turned_all(ops: Seq<DiceArithmeticOp>) -> Seq<DiceArithmeticOp> {
    Seq::new(ops.len(), |i: int| turned(ops[i]))
}

/// The operations of a text, one for each term: where the text does not
/// begin with a sign, the first term is added.
pub open spec fn full_ops(s: Seq<char>) -> Seq<DiceArithmeticOp> {
    if s.len() > 0 && is_sign(s[0]) {
        ops_of(s)
    } else {
        seq![DiceArithmeticOp::Add] + ops_of(s)
    }
}

/// To turn every sign is to negate the total: with each plus and minus
/// turned into the other, terms that are added, subtracted and multiplied
/// from left to right come to the same number with the other sign.
pub proof fn law_turned_total(sums: Seq<i32>, ops: Seq<DiceArithmeticOp>, n: nat)
    requires
        n <= ops.len(),
    ensures
        exact(sums, turned_all(ops), n) == -exact(sums, ops, n),
    decreases n,
{
    if n > 0 {
        law_turned_total(sums, ops, (n - 1) as nat);
        let acc = exact(sums, ops, (n - 1) as nat);
        let v = sums[n - 1] as int;
        assert((-acc) * v == -(acc * v)) by (nonlinear_arith);
    }
}

/// Turning the signs of a text leaves its pieces as they are and turns its
/// operations.
pub proof fn lemma_flipped(s: Seq<char>)
    ensures
        fields(flipped(s), false) == fields(s, false),
        ops_of(flipped(s)) == turned_all(ops_of(s)),
    decreases s.len(),
{
    if s.len() > 0 {
        lemma_flipped(s.drop_last());
        assert(flipped(s).drop_last() == flipped(s.drop_last()));
        assert(ops_of(flipped(s)) == turned_all(ops_of(s)));
    } else {
        assert(ops_of(flipped(s)) == turned_all(ops_of(s)));
    }
}

/// A minus before a text adds an empty piece before its pieces and a
/// subtraction before its operations.
pub proof fn lemma_minus_in_front(u: Seq<char>)
    ensures
        fields(seq!['-'] + u, false) == seq![Seq::<char>::empty()] + fields(u, false),
        ops_of(seq!['-'] + u) == seq![DiceArithmeticOp::Subtract] + ops_of(u),
    decreases u.len(),
{
    let t = seq!['-'] + u;
    if u.len() > 0 {
        lemma_minus_in_front(u.drop_last());
        lemma_fields_len(u.drop_last(), false);
        assert(t.drop_last() == seq!['-'] + u.drop_last());
        assert(t.last() == u.last());
        let before = fields(u.drop_last(), false);
        let shifted = fields(t.drop_last(), false);
        assert(shifted == seq![Seq::<char>::empty()] + before);
        assert(shifted.last() == before.last());
        assert(shifted.drop_last() == seq![Seq::<char>::empty()] + before.drop_last());
        assert(fields(t, false) == seq![Seq::<char>::empty()] + fields(u, false));
        assert(ops_of(t) == seq![DiceArithmeticOp::Subtract] + ops_of(u));
    } else {
        assert(t.drop_last() == Seq::<char>::empty());
        assert(t.last() == '-');
        assert(fields(Seq::<char>::empty(), false) == seq![Seq::<char>::empty()]);
        assert(fields(t, false) == seq![Seq::<char>::empty()] + fields(u, false));
        assert(ops_of(t.drop_last()) == Seq::<DiceArithmeticOp>::empty());
        assert(ops_of(t) == seq![DiceArithmeticOp::Subtract] + ops_of(u));
    }
}

/// A minus at the end negates the whole: the text has the same terms with
/// it as without it, and each of its operations is turned, that of the
/// first term included.
pub proof fn law_minus_at_the_end(s: Seq<char>)
    requires
        s.len() > 0,
        !is_sign(s.last()),
    ensures
        terms_of(settled(s.push('-'))) == terms_of(s),
        ops_of(settled(s.push('-'))) == turned_all(full_ops(s)),
        settled(s.push('-')).last() == s.last(),
{
    let t = settled(s.push('-'));
    let f = flipped(s);
    assert(s.push('-').drop_last() == s);
    lemma_flipped(s);
    lemma_fields_len(s, false);
    if is_sign(f[0]) {
        assert(t == f);
        assert(is_sign(s[0]));
    } else {
        assert(t == seq!['-'] + f);
        lemma_minus_in_front(f);
        assert(!is_sign(s[0]));
        assert(terms_of(t) == fields(f, false));
        assert(ops_of(t) == turned_all(full_ops(s)));
    }
}

} // verus!
