//! The total of an expression, once its terms are rolled.

use crate::arith::{add_clamped, clamp32, mul_clamped, sub_clamped, sum_of};
use crate::compound::{CompoundDiceRoll, CompoundView, DiceArithmeticOp};
use crate::error::{DiceError, ErrorKind};
use crate::result::{result_text, DiceResult, DiceResultView};
use crate::text::{decimal_of, join, push_integer, push_text, string_of};
use vstd::prelude::*;

verus! {

/// How a roll ended, as a plain value.
pub open spec fn outcome_of(roll: Result<DiceResult, DiceError>) -> Result<
    DiceResultView,
    ErrorKind,
> {
    match roll {
        Ok(result) => Ok(result@),
        Err(error) => Err(error.kind),
    }
}

/// How some rolls ended, as plain values.
pub open spec fn outcomes_of(rolls: Seq<Result<DiceResult, DiceError>>) -> Seq<
    Result<DiceResultView, ErrorKind>,
> {
    Seq::new(rolls.len(), |i: int| outcome_of(rolls[i]))
}

/// How many of `rolls` failed.
pub open spec fn failures(rolls: Seq<Result<DiceResultView, ErrorKind>>) -> nat
    decreases rolls.len(),
{
    if rolls.len() == 0 {
        0
    } else {
        failures(rolls.drop_last()) + if rolls.last() is Err {
            1nat
        } else {
            0nat
        }
    }
}

/// The error of the last of `rolls` that failed.
pub open spec fn failure(rolls: Seq<Result<DiceResultView, ErrorKind>>) -> ErrorKind
    decreases rolls.len(),
{
    if rolls.len() == 0 {
        ErrorKind::CompoundDiceMultipleRollErrors
    } else {
        match rolls.last() {
            Err(kind) => kind,
            Ok(_) => failure(rolls.drop_last()),
        }
    }
}

/// The operations of an expression, one for each term: where the first
/// term has none, it is added.
pub open spec fn paired(c: CompoundView) -> Seq<DiceArithmeticOp> {
    if c.ops.len() < c.dice.len() {
        seq![DiceArithmeticOp::Add] + c.ops
    } else {
        c.ops
    }
}

/// Whether a term that came to zero stands behind a division.
pub open spec fn divides_by_zero(sums: Seq<i32>, ops: Seq<DiceArithmeticOp>) -> bool {
    exists|i: int|
        0 <= i < sums.len() && i < ops.len() && sums[i] == 0 && #[trigger] ops[i] is Divide
}

/// Whether one of `ops` is a division.
pub open spec fn divides(ops: Seq<DiceArithmeticOp>) -> bool {
    exists|i: int| 0 <= i < ops.len() && #[trigger] ops[i] is Divide
}

/// One step of the total: `acc` and `v` under `op`, kept in thirty-two
/// bits. Division is no step of a total in whole numbers.
pub open spec fn applied(acc: i32, op: DiceArithmeticOp, v: i32) -> i32 {
    match op {
        DiceArithmeticOp::Add => clamp32(acc + v),
        DiceArithmeticOp::Subtract => clamp32(acc - v),
        DiceArithmeticOp::Multiply => clamp32(acc * v),
        DiceArithmeticOp::Divide => acc,
    }
}

/// The total of the first `n` terms: from zero, each term in turn is
/// added, subtracted or multiplied in, from left to right, whatever the
/// operations are.
pub open spec fn folded(sums: Seq<i32>, ops: Seq<DiceArithmeticOp>, n: nat) -> i32
    decreases n,
{
    if n == 0 {
        0
    } else {
        applied(folded(sums, ops, (n - 1) as nat), ops[n - 1], sums[n - 1])
    }
}

/// The result of an expression as a plain value.
pub struct CompoundResultView {
    /// The result of each term, in order.
    pub individuals: Seq<DiceResultView>,
    /// What each term comes to: the sum of its values, kept in thirty-two bits.
    pub sums: Seq<i32>,
    /// The operation before each term.
    pub ops: Seq<DiceArithmeticOp>,
    /// The total, unless the expression divides: a total with a division is
    /// a fraction, which this value does not hold.
    pub total: Option<i32>,
}

/// The sums of some results.
pub open spec fn sums_of(individuals: Seq<DiceResultView>) -> Seq<i32> {
    Seq::new(individuals.len(), |i: int| clamp32(sum_of(individuals[i].seq)))
}

/// What an expression comes to, given how the roll of each term ended.
///
/// If one roll failed, its error is the error of the whole; if more did,
/// the error says so. Else each term comes to the sum of its values, also
/// where the result counts successes. A term that comes to zero behind a
/// division is an error. Else the total is [`folded`], unless the
/// expression divides.
pub open spec fn combined(c: CompoundView, rolls: Seq<Result<DiceResultView, ErrorKind>>) -> Result<
    CompoundResultView,
    ErrorKind,
> {
    let individuals = Seq::new(rolls.len(), |i: int| rolls[i].unwrap());
    let sums = sums_of(individuals);
    let ops = paired(c);
    if failures(rolls) == 1 {
        Err(failure(rolls))
    } else if failures(rolls) > 1 {
        Err(ErrorKind::CompoundDiceMultipleRollErrors)
    } else if divides_by_zero(sums, ops) {
        Err(ErrorKind::DiceExprDivisionByZero)
    } else {
        Ok(
            CompoundResultView {
                individuals,
                sums,
                ops,
                total: if divides(ops) {
                    None
                } else {
                    Some(folded(sums, ops, sums.len()))
                },
            },
        )
    }
}

/// What holds of every result of an expression: it has a term, and a sum
/// and an operation for each term.
pub open spec fn valid_result(r: CompoundResultView) -> bool {
    &&& r.individuals.len() >= 1
    &&& r.sums == sums_of(r.individuals)
    &&& r.ops.len() == r.individuals.len()
    &&& r.total is None <==> divides(r.ops)
}

/// The texts of some results.
pub open spec fn texts_of(individuals: Seq<DiceResultView>) -> Seq<Seq<char>> {
    Seq::new(individuals.len(), |i: int| result_text(individuals[i]))
}

/// How the result of an expression is shown, with `total` for its total:
/// a single term as its own result, several with semicolons between them
/// and the total at the end.
pub open spec fn compound_text(individuals: Seq<DiceResultView>, total: Seq<char>) -> Seq<char> {
    if individuals.len() > 1 {
        join(texts_of(individuals), "; "@) + "; = "@ + total
    } else {
        result_text(individuals[0])
    }
}

/// The results of some rolls as plain values.
pub open spec fn views_of(individuals: Seq<DiceResult>) -> Seq<DiceResultView> {
    Seq::new(individuals.len(), |i: int| individuals[i]@)
}

/// The result of an expression: the result of each term, and the total.
#[derive(Debug)]
pub struct CompoundDiceResult {
    individuals: Vec<DiceResult>,
    sums: Vec<i32>,
    ops: Vec<DiceArithmeticOp>,
    total: Option<i32>,
}

impl View for CompoundDiceResult {
    type V = CompoundResultView;

    closed spec fn view(&self) -> CompoundResultView {
        CompoundResultView {
            individuals: views_of(self.individuals@),
            sums: self.sums@,
            ops: self.ops@,
            total: self.total,
        }
    }
}

/// What the result of an expression must be, given what it comes to.
pub open spec fn results_in(
    r: Result<CompoundDiceResult, DiceError>,
    meant: Result<CompoundResultView, ErrorKind>,
) -> bool {
    match meant {
        Ok(c) => r is Ok && r.unwrap()@ == c,
        Err(kind) => r is Err && r.unwrap_err().kind == kind,
    }
}

/// One step of a total. See [`applied`].
pub fn apply(acc: i32, op: DiceArithmeticOp, v: i32) -> (r: i32)
    ensures
        r == applied(acc, op, v),
{
    match op {
        DiceArithmeticOp::Add => add_clamped(acc, v),
        DiceArithmeticOp::Subtract => sub_clamped(acc, v),
        DiceArithmeticOp::Multiply => mul_clamped(acc, v),
        DiceArithmeticOp::Divide => acc,
    }
}

/// The total of terms that come to `sums` under `ops`. See [`folded`].
pub fn fold(sums: &Vec<i32>, ops: &Vec<DiceArithmeticOp>) -> (total: i32)
    requires
        sums.len() == ops.len(),
    ensures
        total == folded(sums@, ops@, sums.len() as nat),
{
    let mut total: i32 = 0;
    let mut i: usize = 0;
    while i < sums.len()
        invariant
            i <= sums.len() == ops.len(),
            total == folded(sums@, ops@, i as nat),
        decreases sums.len() - i,
    {
        total = apply(total, ops[i], sums[i]);
        i += 1;
    }
    total
}

impl CompoundDiceResult {
    #[verifier::type_invariant]
    spec fn valid(&self) -> bool {
        valid_result(self@)
    }

    /// The result of each term, in order.
    pub fn individuals(&self) -> (individuals: &Vec<DiceResult>)
        ensures
            views_of(individuals@) == self@.individuals,
            valid_result(self@),
    {
        proof {
            use_type_invariant(self);
        }
        &self.individuals
    }

    /// What each term comes to.
    pub fn sums(&self) -> (sums: &Vec<i32>)
        ensures
            sums@ == self@.sums,
            valid_result(self@),
    {
        proof {
            use_type_invariant(self);
        }
        &self.sums
    }

    /// The operation before each term.
    pub fn ops(&self) -> (ops: &Vec<DiceArithmeticOp>)
        ensures
            ops@ == self@.ops,
            valid_result(self@),
    {
        proof {
            use_type_invariant(self);
        }
        &self.ops
    }

    /// The total, unless the expression divides.
    pub fn total(&self) -> (total: Option<i32>)
        ensures
            total == self@.total,
            valid_result(self@),
    {
        proof {
            use_type_invariant(self);
        }
        self.total
    }

    /// The result as it is shown, with `total` for its total. See
    /// [`compound_text`].
    pub fn text_with(&self, total: &str) -> (s: String)
        ensures
            s@ == compound_text(self@.individuals, total@),
    {
        proof {
            use_type_invariant(self);
        }
        let mut out: Vec<char> = Vec::new();
        if self.individuals.len() > 1 {
            let ghost texts = texts_of(self@.individuals);
            let mut i: usize = 0;
            while i < self.individuals.len()
                invariant
                    i <= self.individuals.len(),
                    texts == texts_of(self@.individuals),
                    texts.len() == self.individuals.len(),
                    out@ == join(texts.take(i as int), "; "@),
                decreases self.individuals.len() - i,
            {
                assert(texts.take(i + 1).drop_last() == texts.take(i as int));
                assert(texts.take(i + 1).last() == result_text(self.individuals@[i as int]@));
                if i > 0 {
                    push_text(&mut out, "; ");
                }
                self.individuals[i].write(&mut out);
                i += 1;
            }
            assert(texts.take(self.individuals.len() as int) == texts);
            push_text(&mut out, "; = ");
            push_text(&mut out, total);
        } else {
            self.individuals[0].write(&mut out);
        }
        string_of(&out)
    }

    /// The result as it is shown, if its total is a whole number or it has
    /// one term only, which is shown without a total.
    pub fn text(&self) -> (s: Option<String>)
        ensures
            match s {
                Some(s) => (self@.total is Some || self@.individuals.len() == 1) && s@
                    == compound_text(
                    self@.individuals,
                    match self@.total {
                        Some(total) => decimal_of(total as int),
                        None => Seq::empty(),
                    },
                ),
                None => self@.total is None && self@.individuals.len() != 1,
            },
    {
        proof {
            use_type_invariant(self);
        }
        match self.total {
            Some(total) => {
                let mut digits: Vec<char> = Vec::new();
                push_integer(&mut digits, total as i64);
                let written = string_of(&digits);
                Some(self.text_with(written.as_str()))
            },
            None => {
                if self.individuals.len() == 1 {
                    Some(self.text_with(""))
                } else {
                    None
                }
            },
        }
    }
}

impl DiceResult {
    /// The same result once more.
    pub fn duplicate(&self) -> (r: DiceResult)
        ensures
            r@ == self@,
    {
        let seq = self.seq();
        let mut values: Vec<i32> = Vec::new();
        let mut i: usize = 0;
        while i < seq.len()
            invariant
                i <= seq.len(),
                values@ == seq@.take(i as int),
            decreases seq.len() - i,
        {
            values.push(seq[i]);
            i += 1;
        }
        assert(seq@.take(seq.len() as int) == seq@);
        DiceResult::new(values, self.truly_random(), self.success_threshold())
    }
}

impl CompoundDiceRoll {
    /// The result of the expression, given how the roll of each term
    /// ended. See [`combined`].
    pub fn result(
        &self,
        rolls: &Vec<Result<DiceResult, DiceError>>,
    ) -> (r: Result<CompoundDiceResult, DiceError>)
        requires
            rolls.len() == self@.dice.len(),
        ensures
            results_in(r, combined(self@, outcomes_of(rolls@))),
    {
        let ghost outcomes = outcomes_of(rolls@);
        let mut failed: usize = 0;
        let mut error = DiceError::new(ErrorKind::CompoundDiceMultipleRollErrors);
        let mut i: usize = 0;
        while i < rolls.len()
            invariant
                i <= rolls.len(),
                outcomes == outcomes_of(rolls@),
                failed == failures(outcomes.take(i as int)),
                failed <= i,
                error.kind == failure(outcomes.take(i as int)),
            decreases rolls.len() - i,
        {
            assert(outcomes.take(i + 1).drop_last() == outcomes.take(i as int));
            assert(outcomes.take(i + 1).last() == outcome_of(rolls@[i as int]));
            match &rolls[i] {
                Err(e) => {
                    failed += 1;
                    error = *e;
                },
                Ok(_) => {},
            }
            i += 1;
        }
        assert(outcomes.take(rolls.len() as int) == outcomes);
        if failed == 1 {
            return Err(error);
        }
        if failed > 1 {
            return Err(DiceError::new(ErrorKind::CompoundDiceMultipleRollErrors));
        }
        self.total(rolls)
    }

    /// The operations of the expression, one for each term. See [`paired`].
    fn paired_ops(&self) -> (ops: Vec<DiceArithmeticOp>)
        ensures
            ops@ == paired(self@),
            ops.len() == self@.dice.len(),
            self@.dice.len() >= 1,
    {
        let given = self.ops();
        let mut ops: Vec<DiceArithmeticOp> = Vec::new();
        if given.len() < self.dice().len() {
            ops.push(DiceArithmeticOp::Add);
        }
        let ghost head = ops@;
        let mut j: usize = 0;
        while j < given.len()
            invariant
                j <= given.len(),
                ops@ == head + given@.take(j as int),
            decreases given.len() - j,
        {
            ops.push(given[j]);
            j += 1;
        }
        assert(given@.take(given.len() as int) == given@);
        ops
    }

    /// The result of the expression, given the result of each term.
    fn total(
        &self,
        rolls: &Vec<Result<DiceResult, DiceError>>,
    ) -> (r: Result<CompoundDiceResult, DiceError>)
        requires
            rolls.len() == self@.dice.len(),
            failures(outcomes_of(rolls@)) == 0,
        ensures
            results_in(r, combined(self@, outcomes_of(rolls@))),
    {
        let (individuals, sums) = gather(rolls);
        let ops = self.paired_ops();
        match scan(&sums, &ops) {
            None => Err(DiceError::new(ErrorKind::DiceExprDivisionByZero)),
            Some(dividing) => {
                let total = if dividing {
                    None
                } else {
                    Some(fold(&sums, &ops))
                };
                Ok(CompoundDiceResult { individuals, sums, ops, total })
            },
        }
    }
}

/// The results of rolls that all succeeded, and what each comes to.
fn gather(rolls: &Vec<Result<DiceResult, DiceError>>) -> (r: (Vec<DiceResult>, Vec<i32>))
    requires
        failures(outcomes_of(rolls@)) == 0,
    ensures
        views_of(r.0@) == Seq::new(rolls.len() as nat, |i: int| outcomes_of(rolls@)[i].unwrap()),
        r.1@ == sums_of(views_of(r.0@)),
        r.0.len() == rolls.len(),
{
    let ghost outcomes = outcomes_of(rolls@);
    let mut individuals: Vec<DiceResult> = Vec::new();
    let mut sums: Vec<i32> = Vec::new();
    let mut i: usize = 0;
    while i < rolls.len()
        invariant
            i <= rolls.len(),
            individuals.len() == i,
            sums.len() == i,
            forall|k: int| 0 <= k < i ==> (#[trigger] individuals[k])@ == outcomes[k].unwrap(),
            forall|k: int|
                0 <= k < i ==> #[trigger] sums[k] == clamp32(sum_of(individuals[k]@.seq)),
            outcomes == outcomes_of(rolls@),
            failures(outcomes) == 0,
        decreases rolls.len() - i,
    {
        assert(outcomes[i as int] == outcome_of(rolls@[i as int]));
        match &rolls[i] {
            Ok(result) => {
                sums.push(result.sum());
                individuals.push(result.duplicate());
            },
            Err(_) => {
                proof {
                    lemma_failed(outcomes, i as int);
                }
                sums.push(0);
                individuals.push(DiceResult::zero());
            },
        }
        i += 1;
    }
    (individuals, sums)
}

/// Whether one of `ops` is a division; nothing if a term that comes to
/// zero stands behind one.
fn scan(sums: &Vec<i32>, ops: &Vec<DiceArithmeticOp>) -> (r: Option<bool>)
    requires
        sums.len() == ops.len(),
    ensures
        match r {
            Some(dividing) => !divides_by_zero(sums@, ops@) && dividing == divides(ops@),
            None => divides_by_zero(sums@, ops@),
        },
{
    let mut dividing = false;
    let mut k: usize = 0;
    while k < ops.len()
        invariant
            k <= ops.len() == sums.len(),
            dividing == divides(ops@.take(k as int)),
            !divides_by_zero(sums@.take(k as int), ops@.take(k as int)),
        decreases ops.len() - k,
    {
        let ghost a = ops@.take(k as int);
        let ghost b = ops@.take(k + 1);
        let ghost sa = sums@.take(k as int);
        let ghost sb = sums@.take(k + 1);
        match ops[k] {
            DiceArithmeticOp::Divide => {
                if sums[k] == 0 {
                    assert(sums@[k as int] == 0 && ops@[k as int] is Divide);
                    return None;
                }
                dividing = true;
                assert(b[k as int] is Divide);
            },
            _ => {
                proof {
                    if divides(b) {
                        let w = choose|w: int| 0 <= w < b.len() && #[trigger] b[w] is Divide;
                        assert(a[w] is Divide);
                    }
                    if divides(a) {
                        let w = choose|w: int| 0 <= w < a.len() && #[trigger] a[w] is Divide;
                        assert(b[w] is Divide);
                    }
                }
            },
        }
        proof {
            if divides_by_zero(sb, b) {
                let w = choose|w: int|
                    0 <= w < sb.len() && w < b.len() && sb[w] == 0 && #[trigger] b[w] is Divide;
                assert(sa[w] == 0 && a[w] is Divide);
            }
        }
        k += 1;
    }
    assert(ops@.take(ops.len() as int) == ops@);
    assert(sums@.take(sums.len() as int) == sums@);
    Some(dividing)
}

/// Where no roll failed, none did.
proof fn lemma_failed(rolls: Seq<Result<DiceResultView, ErrorKind>>, i: int)
    requires
        0 <= i < rolls.len(),
        rolls[i] is Err,
    ensures
        failures(rolls) > 0,
    decreases rolls.len(),
{
    if i < rolls.len() - 1 {
        lemma_failed(rolls.drop_last(), i);
    }
}

} // verus!
