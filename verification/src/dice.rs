//! One term of an expression: some dice of equal sides, and what is done
//! with them.

use crate::error::{DiceError, ErrorKind};
use crate::kind::{arity, backfilled, kind_of, DieKind, Word};
use crate::text::{chars_of, digit, is_digit, is_letter, letter, number_of, read_number};
use vstd::prelude::*;

verus! {

/// The most dice that a term may ask for.
pub const MAX_AMOUNT: u16 = 50;

/// The most sides that the dice of a term may have.
pub const MAX_SIDES: u16 = 1000;

/// The sides of dice whose term does not say.
pub const DEFAULT_SIDES: u16 = 20;

/// Every character of `s` is a lowercase letter or a digit.
pub open spec fn all_alnum(s: Seq<char>) -> bool {
    forall|i: int| 0 <= i < s.len() ==> is_digit(#[trigger] s[i]) || is_letter(s[i])
}

/// The runs of digits in `s`, each as long as it can be, from left to right;
/// or, where `digits` is false, the runs of the other characters.
pub open spec fn runs(s: Seq<char>, digits: bool) -> Seq<Seq<char>>
    decreases s.len(),
{
    if s.len() == 0 {
        Seq::empty()
    } else {
        let before = runs(s.drop_last(), digits);
        let c = s.last();
        if is_digit(c) != digits {
            before
        } else if s.len() >= 2 && is_digit(s[s.len() - 2]) == digits {
            before.drop_last().push(before.last().push(c))
        } else {
            before.push(seq![c])
        }
    }
}

/// Each of `numbers` is a number of sixteen bits.
pub open spec fn all_fit(numbers: Seq<Seq<char>>) -> bool {
    forall|i: int| 0 <= i < numbers.len() ==> (#[trigger] number_of(numbers[i])) is Some
}

/// The values of `numbers`.
pub open spec fn values_of(numbers: Seq<Seq<char>>) -> Seq<u16> {
    Seq::new(numbers.len(), |i: int| number_of(numbers[i]).unwrap())
}

/// A term as a plain value.
pub struct DiceView {
    /// How many dice are rolled.
    pub amount: u16,
    /// How many sides each has.
    pub sides: u16,
    /// What is done with them.
    pub kind: DieKind,
    /// The arguments of that operation.
    pub args: Seq<u16>,
}

/// What every term satisfies: at most fifty dice, unless the term is a plain
/// number, which stands for that many dice of one side; at most a thousand
/// sides; and as many arguments as the operation takes.
pub open spec fn valid_dice(d: DiceView) -> bool {
    &&& d.amount <= MAX_AMOUNT || (d.kind is Regular && d.sides == 1)
    &&& d.sides <= MAX_SIDES
    &&& d.args.len() == arity(d.kind)
}

/// What a term means.
///
/// The text must be lowercase letters and digits. A number alone is that
/// many dice of one side. Otherwise the words of the term are its runs of
/// letters: a first word `d` announces the sides, and the words that remain,
/// two at most, name the operation. The numbers are the runs of digits: the
/// amount if the term begins with one (else one die), the sides if they were
/// announced and a number is left (else twenty), and the arguments. Then the
/// limits on amount and sides are applied, and last the operation must have
/// got all its arguments.
pub open spec fn term_of(s: Seq<char>) -> Result<DiceView, ErrorKind> {
    if s.len() == 0 || !all_alnum(s) {
        Err(ErrorKind::DiceStringInvalidCharacters)
    } else if number_of(s) is Some {
        Ok(
            DiceView {
                amount: number_of(s).unwrap(),
                sides: 1,
                kind: DieKind::Regular,
                args: seq![],
            },
        )
    } else {
        let words = runs(s, false);
        let marked = words.len() > 0 && words[0] == seq!['d'];
        let ops = if marked {
            words.drop_first()
        } else {
            words
        };
        if ops.len() > 2 {
            Err(ErrorKind::DiceStringTooManyParts)
        } else if kind_of(ops) is None {
            Err(ErrorKind::DiceStringInvalidOp)
        } else if !all_fit(runs(s, true)) {
            Err(ErrorKind::DiceStringNumberTooLarge)
        } else {
            assembled(kind_of(ops).unwrap(), values_of(runs(s, true)), is_digit(s[0]), marked)
        }
    }
}

/// The term made of an operation and the numbers of a text, where `leading`
/// says that the text begins with a number and `marked` that it announces
/// its sides; or the error, if a limit is passed or an argument is missing.
pub open spec fn assembled(kind: DieKind, values: Seq<u16>, leading: bool, marked: bool) -> Result<
    DiceView,
    ErrorKind,
> {
    let used: int = if leading {
        1
    } else {
        0
    };
    let sided = marked && values.len() > used;
    let amount = if leading {
        values[0]
    } else {
        1
    };
    let sides = if sided {
        values[used]
    } else {
        DEFAULT_SIDES
    };
    let given = values.skip(
        if sided {
            used + 1
        } else {
            used
        },
    );
    let args = backfilled(kind, given);
    if amount > MAX_AMOUNT {
        Err(ErrorKind::DiceAmountTooLarge)
    } else if sides > MAX_SIDES {
        Err(ErrorKind::DiceTooManySides)
    } else if args.len() != arity(kind) {
        Err(ErrorKind::DiceStringInvalidOp)
    } else {
        Ok(DiceView { amount, sides, kind, args })
    }
}

/// What a reading must be, given what the text means.
pub open spec fn agrees(r: Result<Dice, DiceError>, meant: Result<DiceView, ErrorKind>) -> bool {
    match meant {
        Ok(d) => r is Ok && r.unwrap()@ == d,
        Err(kind) => r is Err && r.unwrap_err().kind == kind,
    }
}

/// What a reading of a term must be: the term that the text means, or the
/// error that it earns.
pub open spec fn reads_as(r: Result<Dice, DiceError>, s: Seq<char>) -> bool {
    agrees(r, term_of(s))
}

/// A run is not empty, and it holds digits only or none at all.
pub proof fn law_runs_are_runs(s: Seq<char>, digits: bool, k: int)
    requires
        0 <= k < runs(s, digits).len(),
    ensures
        runs(s, digits)[k].len() > 0,
        forall|i: int|
            0 <= i < runs(s, digits)[k].len() ==> is_digit(#[trigger] runs(s, digits)[k][i])
                == digits,
    decreases s.len(),
{
    if s.len() > 0 {
        if k < runs(s.drop_last(), digits).len() {
            law_runs_are_runs(s.drop_last(), digits, k);
        }
    }
}

/// A run that begins a text is the first of its runs.
pub proof fn lemma_first_run(s: Seq<char>, digits: bool)
    requires
        s.len() > 0,
        is_digit(s[0]) == digits,
    ensures
        runs(s, digits).len() > 0,
    decreases s.len(),
{
    if s.len() > 1 {
        lemma_first_run(s.drop_last(), digits);
    }
}

/// Some same-sided dice to be rolled, and the operation that shapes the result.
#[derive(Debug, PartialEq, Eq)]
pub struct Dice {
    amount: u16,
    sides: u16,
    kind: DieKind,
    args: Vec<u16>,
}

impl View for Dice {
    type V = DiceView;

    closed spec fn view(&self) -> DiceView {
        DiceView { amount: self.amount, sides: self.sides, kind: self.kind, args: self.args@ }
    }
}

/// The places of the runs of `v`: for each run, where it begins and where
/// it ends.
pub fn find_runs(v: &Vec<char>, digits: bool) -> (spans: Vec<(usize, usize)>)
    ensures
        spans.len() == runs(v@, digits).len(),
        forall|k: int|
            0 <= k < spans.len() ==> {
                &&& (#[trigger] spans[k]).0 < spans[k].1 <= v.len()
                &&& runs(v@, digits)[k] == v@.subrange(spans[k].0 as int, spans[k].1 as int)
            },
{
    let mut spans: Vec<(usize, usize)> = Vec::new();
    let mut i: usize = 0;
    while i < v.len()
        invariant
            i <= v.len(),
            spans.len() == runs(v@.take(i as int), digits).len(),
            forall|k: int|
                0 <= k < spans.len() ==> {
                    &&& (#[trigger] spans[k]).0 < spans[k].1 <= i
                    &&& runs(v@.take(i as int), digits)[k] == v@.subrange(
                        spans[k].0 as int,
                        spans[k].1 as int,
                    )
                },
            i > 0 && is_digit(v@[i - 1]) == digits ==> spans.len() > 0 && spans[spans.len()
                - 1].1 == i,
        decreases v.len() - i,
    {
        let c = v[i];
        let ghost s = v@.take(i + 1);
        let ghost before = runs(v@.take(i as int), digits);
        assert(s.drop_last() == v@.take(i as int));
        assert(s.last() == c);
        if digit(c) == digits {
            if i > 0 && digit(v[i - 1]) == digits {
                assert(s[s.len() - 2] == v@[i - 1]);
                let last = spans.len() - 1;
                let from = spans[last].0;
                spans.set(last, (from, i + 1));
                assert(before.last().push(c) == v@.subrange(from as int, i + 1));
            } else {
                assert(s.len() >= 2 ==> s[s.len() - 2] == v@[i - 1]);
                spans.push((i, i + 1));
                assert(seq![c] == v@.subrange(i as int, i + 1));
            }
        }
        i += 1;
    }
    assert(v@.take(v.len() as int) == v@);
    spans
}

/// Whether `v` is one or more lowercase letters and digits.
pub fn is_alnum(v: &Vec<char>) -> (b: bool)
    ensures
        b == (v@.len() > 0 && all_alnum(v@)),
{
    let mut i: usize = 0;
    while i < v.len()
        invariant
            i <= v.len(),
            all_alnum(v@.take(i as int)),
        decreases v.len() - i,
    {
        if !digit(v[i]) && !letter(v[i]) {
            return false;
        }
        i += 1;
    }
    assert(v@.take(v.len() as int) == v@);
    v.len() > 0
}

/// The operation that the words at `words[first..]` name.
fn find_kind(
    v: &Vec<char>,
    words: &Vec<(usize, usize)>,
    first: usize,
    Ghost(ops): Ghost<Seq<Seq<char>>>,
) -> (found: Option<DieKind>)
    requires
        first <= words.len() <= first + 2,
        ops.len() == words.len() - first,
        forall|k: int|
            first <= k < words.len() ==> {
                &&& (#[trigger] words[k]).0 < words[k].1 <= v.len()
                &&& ops[k - first] == v@.subrange(words[k].0 as int, words[k].1 as int)
            },
    ensures
        found == kind_of(ops),
{
    if words.len() - first == 0 {
        Some(DieKind::Regular)
    } else if words.len() - first == 1 {
        assert(ops[0] == v@.subrange(words[first as int].0 as int, words[first as int].1 as int));
        match Word::read(v, words[first].0, words[first].1) {
            Some(a) => DieKind::of_one(a),
            None => None,
        }
    } else {
        assert(ops[0] == v@.subrange(words[first as int].0 as int, words[first as int].1 as int));
        assert(ops[1] == v@.subrange(words[first + 1].0 as int, words[first + 1].1 as int));
        let a = Word::read(v, words[first].0, words[first].1);
        let b = Word::read(v, words[first + 1].0, words[first + 1].1);
        match (a, b) {
            (Some(a), Some(b)) => DieKind::of_two(a, b),
            _ => None,
        }
    }
}

/// The values of the numbers at `numbers`, unless one does not fit.
fn read_values(
    v: &Vec<char>,
    numbers: &Vec<(usize, usize)>,
    Ghost(texts): Ghost<Seq<Seq<char>>>,
) -> (r: Option<Vec<u16>>)
    requires
        texts.len() == numbers.len(),
        forall|k: int|
            0 <= k < numbers.len() ==> {
                &&& (#[trigger] numbers[k]).0 < numbers[k].1 <= v.len()
                &&& texts[k] == v@.subrange(numbers[k].0 as int, numbers[k].1 as int)
            },
    ensures
        match r {
            Some(values) => all_fit(texts) && values@ == values_of(texts),
            None => !all_fit(texts),
        },
{
    let mut values: Vec<u16> = Vec::new();
    let mut j: usize = 0;
    while j < numbers.len()
        invariant
            j <= numbers.len() == texts.len(),
            values.len() == j,
            forall|k: int|
                0 <= k < numbers.len() ==> {
                    &&& (#[trigger] numbers[k]).0 < numbers[k].1 <= v.len()
                    &&& texts[k] == v@.subrange(numbers[k].0 as int, numbers[k].1 as int)
                },
            forall|k: int| 0 <= k < j ==> (#[trigger] number_of(texts[k])) == Some(values[k]),
        decreases numbers.len() - j,
    {
        assert(texts[j as int] == v@.subrange(
            numbers[j as int].0 as int,
            numbers[j as int].1 as int,
        ));
        match read_number(v, numbers[j].0, numbers[j].1) {
            Some(value) => {
                values.push(value);
            },
            None => {
                assert(number_of(texts[j as int]) is None);
                return None;
            },
        }
        j += 1;
    }
    assert(values@ == values_of(texts));
    Some(values)
}

impl Dice {
    #[verifier::type_invariant]
    spec fn valid(&self) -> bool {
        valid_dice(self@)
    }

    /// How many dice are rolled.
    pub fn amount(&self) -> (amount: u16)
        ensures
            amount == self@.amount,
            valid_dice(self@),
    {
        proof {
            use_type_invariant(self);
        }
        self.amount
    }

    /// How many sides each die has.
    pub fn sides(&self) -> (sides: u16)
        ensures
            sides == self@.sides,
            valid_dice(self@),
    {
        proof {
            use_type_invariant(self);
        }
        self.sides
    }

    /// What is done with the dice.
    pub fn kind(&self) -> (kind: DieKind)
        ensures
            kind == self@.kind,
            valid_dice(self@),
    {
        proof {
            use_type_invariant(self);
        }
        self.kind
    }

    /// The arguments of the operation.
    pub fn args(&self) -> (args: &Vec<u16>)
        ensures
            args@ == self@.args,
            valid_dice(self@),
    {
        proof {
            use_type_invariant(self);
        }
        &self.args
    }

    /// The same term once more.
    pub fn duplicate(&self) -> (d: Dice)
        ensures
            d@ == self@,
    {
        proof {
            use_type_invariant(self);
        }
        let mut args: Vec<u16> = Vec::new();
        let mut i: usize = 0;
        while i < self.args.len()
            invariant
                i <= self.args.len(),
                args@ == self.args@.take(i as int),
            decreases self.args.len() - i,
        {
            args.push(self.args[i]);
            i += 1;
        }
        assert(self.args@.take(self.args.len() as int) == self.args@);
        Dice { amount: self.amount, sides: self.sides, kind: self.kind, args }
    }

    /// Reads a term. See [`term_of`] for what a term means.
    pub fn parse(text: &str) -> (r: Result<Dice, DiceError>)
        ensures
            reads_as(r, text@),
    {
        let v = chars_of(text);
        Dice::read(&v)
    }

    /// Puts a term together from its operation and its numbers.
    fn assemble(
        kind: DieKind,
        values: &Vec<u16>,
        leading: bool,
        marked: bool,
    ) -> (r: Result<Dice, DiceError>)
        requires
            leading ==> values.len() > 0,
        ensures
            agrees(r, assembled(kind, values@, leading, marked)),
    {
        let used: usize = if leading {
            1
        } else {
            0
        };
        let sided = marked && values.len() > used;
        let amount = if leading {
            values[0]
        } else {
            1
        };
        let sides = if sided {
            values[used]
        } else {
            DEFAULT_SIDES
        };
        let skipped = if sided {
            used + 1
        } else {
            used
        };
        let ghost given = values@.skip(skipped as int);
        let mut args: Vec<u16> = Vec::new();
        match kind {
            DieKind::Explode | DieKind::Open => {
                if values.len() - skipped == 0 {
                    args.push(u16::MAX);
                }
            },
            DieKind::ExplodingSuccess => {
                if values.len() - skipped == 1 {
                    args.push(u16::MAX);
                }
            },
            _ => {},
        }
        let ghost filled = args@;
        let mut k: usize = skipped;
        while k < values.len()
            invariant
                skipped <= k <= values.len(),
                args@ == filled + values@.subrange(skipped as int, k as int),
            decreases values.len() - k,
        {
            args.push(values[k]);
            k += 1;
        }
        assert(values@.subrange(skipped as int, values.len() as int) == given);
        assert(args@ == backfilled(kind, given));
        if amount > MAX_AMOUNT {
            Err(DiceError::new(ErrorKind::DiceAmountTooLarge))
        } else if sides > MAX_SIDES {
            Err(DiceError::new(ErrorKind::DiceTooManySides))
        } else if args.len() != kind.arity() {
            Err(DiceError::new(ErrorKind::DiceStringInvalidOp))
        } else {
            Ok(Dice { amount, sides, kind, args })
        }
    }

    /// Reads a term from its characters. See [`term_of`] for what a term means.
    pub fn read(v: &Vec<char>) -> (r: Result<Dice, DiceError>)
        ensures
            reads_as(r, v@),
    {
        if !is_alnum(v) {
            return Err(DiceError::new(ErrorKind::DiceStringInvalidCharacters));
        }
        assert(v@.subrange(0, v.len() as int) == v@);
        if let Some(number) = read_number(v, 0, v.len()) {
            return Ok(Dice { amount: number, sides: 1, kind: DieKind::Regular, args: Vec::new() });
        }
        let words = find_runs(v, false);
        let ghost word_runs = runs(v@, false);
        let marked = words.len() > 0 && words[0].1 - words[0].0 == 1 && v[words[0].0] == 'd';
        proof {
            if words.len() > 0 {
                let w = v@.subrange(words[0].0 as int, words[0].1 as int);
                assert(word_runs[0] == w);
                if marked {
                    assert(w == seq!['d']);
                } else if w.len() == 1 {
                    assert(w[0] != 'd');
                    assert(seq!['d'][0] == 'd');
                } else {
                    assert(seq!['d'].len() == 1);
                }
            }
        }
        let first: usize = if marked {
            1
        } else {
            0
        };
        let ghost ops = if marked {
            word_runs.drop_first()
        } else {
            word_runs
        };
        if words.len() - first > 2 {
            return Err(DiceError::new(ErrorKind::DiceStringTooManyParts));
        }
        let found = find_kind(v, &words, first, Ghost(ops));
        let kind = match found {
            Some(kind) => kind,
            None => {
                return Err(DiceError::new(ErrorKind::DiceStringInvalidOp));
            },
        };
        let numbers = find_runs(v, true);
        let values = match read_values(v, &numbers, Ghost(runs(v@, true))) {
            Some(values) => values,
            None => {
                return Err(DiceError::new(ErrorKind::DiceStringNumberTooLarge));
            },
        };
        let leading = digit(v[0]);
        proof {
            if leading {
                lemma_first_run(v@, true);
            }
        }
        Dice::assemble(kind, &values, leading, marked)
    }
}

} // verus!
