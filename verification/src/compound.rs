//! Whole expressions: terms joined by the signs of arithmetic.

use crate::dice::{term_of, valid_dice, Dice, DiceView};
use crate::error::{DiceError, ErrorKind};
use crate::text::{
    chars_of, fields, lemma_fields_len, lowercase, lowercased, parts, separates, slice,
    space, split, string_of, without_spaces,
};
use vstd::prelude::*;

verus! {

/// An operation between the terms of an expression.
#[derive(PartialEq, Eq, Clone, Copy, Debug, Structural)]
pub enum DiceArithmeticOp {
    /// `+`
    Add,
    /// `-`
    Subtract,
    /// `*`
    Multiply,
    /// `/`
    Divide,
}

/// A plus or a minus.
pub open spec fn is_sign(c: char) -> bool {
    c == '+' || c == '-'
}

/// The operation that a sign of arithmetic stands for.
pub open spec fn op_of(c: char) -> DiceArithmeticOp {
    if c == '+' {
        DiceArithmeticOp::Add
    } else if c == '-' {
        DiceArithmeticOp::Subtract
    } else if c == '*' {
        DiceArithmeticOp::Multiply
    } else {
        DiceArithmeticOp::Divide
    }
}

/// The sign that two signs in a row come to: a plus if they are alike, a
/// minus if they differ.
pub open spec fn product(a: char, b: char) -> char {
    if a == b {
        '+'
    } else {
        '-'
    }
}

/// `s` with every row of pluses and minuses brought down to the one sign
/// that it comes to.
pub open spec fn collapsed(s: Seq<char>) -> Seq<char>
    decreases s.len(),
{
    if s.len() == 0 {
        s
    } else {
        let before = collapsed(s.drop_last());
        let c = s.last();
        if is_sign(c) && s.len() >= 2 && is_sign(s[s.len() - 2]) {
            before.drop_last().push(product(before.last(), c))
        } else {
            before.push(c)
        }
    }
}

/// `s` with a minus for every plus and a plus for every minus.
pub open spec fn flipped(s: Seq<char>) -> Seq<char> {
    Seq::new(
        s.len(),
        |i: int|
            if s[i] == '+' {
                '-'
            } else if s[i] == '-' {
                '+'
            } else {
                s[i]
            },
    )
}

/// `s` without a sign at its end. A plus at the end is left out. A minus
/// at the end negates the whole: it is left out, every other plus and minus
/// is turned into the other, and a minus is put in front unless a sign
/// stands there.
pub open spec fn settled(s: Seq<char>) -> Seq<char> {
    if s.len() > 0 && s.last() == '+' {
        s.drop_last()
    } else if s.len() > 0 && s.last() == '-' {
        let turned = flipped(s.drop_last());
        if turned.len() > 0 && is_sign(turned[0]) {
            turned
        } else {
            seq!['-'] + turned
        }
    } else {
        s
    }
}

/// The text of an expression as it is read: without white space, in
/// lowercase, with each row of signs collapsed and no sign at the end.
pub open spec fn normal_form(text: Seq<char>) -> Seq<char> {
    settled(collapsed(lowercased(without_spaces(text))))
}

/// The operations of `s`, in order.
pub open spec fn ops_of(s: Seq<char>) -> Seq<DiceArithmeticOp>
    decreases s.len(),
{
    if s.len() == 0 {
        Seq::empty()
    } else if separates(s.last(), false) {
        ops_of(s.drop_last()).push(op_of(s.last()))
    } else {
        ops_of(s.drop_last())
    }
}

/// The texts of the terms of `s`: what stands between its operations, but
/// for the nothing before a sign that begins `s`.
pub open spec fn terms_of(s: Seq<char>) -> Seq<Seq<char>> {
    if s.len() > 0 && is_sign(s[0]) {
        fields(s, false).drop_first()
    } else {
        fields(s, false)
    }
}

/// The error of the first of `terms` that cannot be read, if there is one.
pub open spec fn first_error(terms: Seq<Seq<char>>) -> Option<ErrorKind>
    decreases terms.len(),
{
    if terms.len() == 0 {
        None
    } else {
        match term_of(terms[0]) {
            Err(kind) => Some(kind),
            Ok(_) => first_error(terms.drop_first()),
        }
    }
}

/// An expression as a plain value.
pub struct CompoundView {
    /// The terms, in order.
    pub dice: Seq<DiceView>,
    /// The operations, in order: one before each term, or one before each
    /// term but the first.
    pub ops: Seq<DiceArithmeticOp>,
}

/// What every expression satisfies: it has a term, its terms are valid, and
/// an operation stands before each term, or before each but the first.
pub open spec fn valid_compound(c: CompoundView) -> bool {
    &&& c.dice.len() >= 1
    &&& c.ops.len() == c.dice.len() || c.ops.len() + 1 == c.dice.len()
    &&& forall|i: int| 0 <= i < c.dice.len() ==> valid_dice(#[trigger] c.dice[i])
}

/// What a text in normal form means. It may not end with `*` or `/`,
/// and something must stand between any two operations, and before
/// a `*` or `/` that begins it. Each term must be readable: the error of the
/// first that is not is the error of the whole.
pub open spec fn expression_of(s: Seq<char>) -> Result<CompoundView, ErrorKind> {
    let terms = terms_of(s);
    if s.len() > 0 && (s.last() == '*' || s.last() == '/') {
        Err(ErrorKind::CompoundDiceExprInvalidOpStructure)
    } else if exists|i: int| 0 <= i < terms.len() && (#[trigger] terms[i]).len() == 0 {
        Err(ErrorKind::CompoundDiceExprInvalidOpStructure)
    } else if first_error(terms) is Some {
        Err(first_error(terms).unwrap())
    } else {
        Ok(
            CompoundView {
                dice: Seq::new(terms.len(), |i: int| term_of(terms[i]).unwrap()),
                ops: ops_of(s),
            },
        )
    }
}

/// The terms of some dice as plain values.
pub open spec fn views_of(dice: Seq<Dice>) -> Seq<DiceView> {
    Seq::new(dice.len(), |i: int| dice[i]@)
}

/// Some dice rolls, and the arithmetic that makes one number of their totals.
#[derive(Debug, PartialEq, Eq)]
pub struct CompoundDiceRoll {
    dice: Vec<Dice>,
    ops: Vec<DiceArithmeticOp>,
}

impl View for CompoundDiceRoll {
    type V = CompoundView;

    closed spec fn view(&self) -> CompoundView {
        CompoundView { dice: views_of(self.dice@), ops: self.ops@ }
    }
}

/// What a reading of an expression must be, given what the text means.
pub open spec fn reads(
    r: Result<CompoundDiceRoll, DiceError>,
    meant: Result<CompoundView, ErrorKind>,
) -> bool {
    match meant {
        Ok(c) => r is Ok && r.unwrap()@ == c,
        Err(kind) => r is Err && r.unwrap_err().kind == kind,
    }
}

/// There is one piece more than there are operations.
pub proof fn lemma_ops_len(s: Seq<char>)
    ensures
        fields(s, false).len() == ops_of(s).len() + 1,
    decreases s.len(),
{
    if s.len() > 0 {
        lemma_ops_len(s.drop_last());
    }
}

/// A text that begins with an operation has an empty first piece and
/// another piece behind it; the first piece of any other text is not empty.
pub proof fn lemma_first_field(s: Seq<char>)
    requires
        s.len() > 0,
    ensures
        fields(s, false).len() >= 1,
        separates(s[0], false) ==> fields(s, false).len() >= 2 && fields(s, false)[0].len() == 0,
        !separates(s[0], false) ==> fields(s, false)[0].len() > 0,
    decreases s.len(),
{
    lemma_fields_len(s, false);
    if s.len() > 1 {
        lemma_first_field(s.drop_last());
        lemma_fields_len(s.drop_last(), false);
        assert(s.drop_last()[0] == s[0]);
    } else {
        assert(s.drop_last() == Seq::<char>::empty());
        assert(fields(Seq::<char>::empty(), false) == seq![Seq::<char>::empty()]);
        assert(s.last() == s[0]);
    }
}

/// Terms that can all be read up to one have that one's error, or the
/// error of those behind it.
pub proof fn lemma_first_error(terms: Seq<Seq<char>>, k: int)
    requires
        0 <= k <= terms.len(),
        forall|j: int| 0 <= j < k ==> (#[trigger] term_of(terms[j])) is Ok,
    ensures
        first_error(terms) == first_error(terms.skip(k)),
    decreases k,
{
    if k > 0 {
        lemma_first_error(terms, k - 1);
        assert(terms.skip(k - 1).drop_first() == terms.skip(k));
        assert(terms.skip(k - 1)[0] == terms[k - 1]);
    } else {
        assert(terms.skip(0) == terms);
    }
}

/// Whether `c` is a plus or a minus.
pub fn sign(c: char) -> (b: bool)
    ensures
        b == is_sign(c),
{
    c == '+' || c == '-'
}

impl DiceArithmeticOp {
    /// The operation that a sign of arithmetic stands for.
    pub fn from(c: char) -> (op: DiceArithmeticOp)
        requires
            separates(c, false),
        ensures
            op == op_of(c),
    {
        if c == '+' {
            DiceArithmeticOp::Add
        } else if c == '-' {
            DiceArithmeticOp::Subtract
        } else if c == '*' {
            DiceArithmeticOp::Multiply
        } else {
            DiceArithmeticOp::Divide
        }
    }
}

/// `v` without its white space.
pub fn strip(v: &Vec<char>) -> (out: Vec<char>)
    ensures
        out@ == without_spaces(v@),
{
    let mut out: Vec<char> = Vec::new();
    let mut i: usize = 0;
    proof {
        reveal(Seq::filter);
    }
    assert(v@.take(0) == Seq::<char>::empty());
    while i < v.len()
        invariant
            i <= v.len(),
            out@ == without_spaces(v@.take(i as int)),
        decreases v.len() - i,
    {
        proof {
            reveal(Seq::filter);
        }
        assert(v@.take(i + 1).drop_last() == v@.take(i as int));
        if !space(v[i]) {
            out.push(v[i]);
        }
        i += 1;
    }
    assert(v@.take(v.len() as int) == v@);
    out
}

/// `v` with every row of signs brought down to one. See [`collapsed`].
pub fn collapse(v: &Vec<char>) -> (out: Vec<char>)
    ensures
        out@ == collapsed(v@),
{
    let mut out: Vec<char> = Vec::new();
    let mut i: usize = 0;
    assert(v@.take(0) == Seq::<char>::empty());
    while i < v.len()
        invariant
            i <= v.len(),
            out@ == collapsed(v@.take(i as int)),
            i > 0 ==> out.len() > 0,
        decreases v.len() - i,
    {
        let c = v[i];
        assert(v@.take(i + 1).drop_last() == v@.take(i as int));
        if sign(c) && i > 0 && sign(v[i - 1]) {
            let last = out.len() - 1;
            let a = out[last];
            out.set(
                last,
                if a == c {
                    '+'
                } else {
                    '-'
                },
            );
            assert(out@ == collapsed(v@.take(i as int)).drop_last().push(product(a, c)));
        } else {
            out.push(c);
        }
        i += 1;
    }
    assert(v@.take(v.len() as int) == v@);
    out
}

/// `v` without a sign at its end. See [`settled`].
pub fn settle_end(v: Vec<char>) -> (out: Vec<char>)
    ensures
        out@ == settled(v@),
{
    let mut v = v;
    let n = v.len();
    if n > 0 && v[n - 1] == '+' {
        v.pop();
        v
    } else if n > 0 && v[n - 1] == '-' {
        let ghost rest = v@.drop_last();
        let mut out: Vec<char> = Vec::new();
        if n == 1 || !sign(v[0]) {
            out.push('-');
        }
        let ghost head = out@;
        let mut i: usize = 0;
        while i < n - 1
            invariant
                i <= n - 1,
                n == v.len(),
                rest == v@.drop_last(),
                out@ == head + flipped(rest).take(i as int),
            decreases n - 1 - i,
        {
            let c = v[i];
            out.push(
                if c == '+' {
                    '-'
                } else if c == '-' {
                    '+'
                } else {
                    c
                },
            );
            i += 1;
        }
        assert(flipped(rest).take(n - 1) == flipped(rest));
        proof {
            if n > 1 {
                assert(flipped(rest)[0] == if v@[0] == '+' {
                    '-'
                } else if v@[0] == '-' {
                    '+'
                } else {
                    v@[0]
                });
            }
            if head.len() == 0 {
                assert(out@ == flipped(rest));
            } else {
                assert(head == seq!['-']);
            }
        }
        out
    } else {
        v
    }
}

/// The operations of `v`, in order.
pub fn find_ops(v: &Vec<char>) -> (ops: Vec<DiceArithmeticOp>)
    ensures
        ops@ == ops_of(v@),
{
    let mut ops: Vec<DiceArithmeticOp> = Vec::new();
    let mut i: usize = 0;
    assert(v@.take(0) == Seq::<char>::empty());
    while i < v.len()
        invariant
            i <= v.len(),
            ops@ == ops_of(v@.take(i as int)),
        decreases v.len() - i,
    {
        assert(v@.take(i + 1).drop_last() == v@.take(i as int));
        if parts(v[i], false) {
            ops.push(DiceArithmeticOp::from(v[i]));
        }
        i += 1;
    }
    assert(v@.take(v.len() as int) == v@);
    ops
}

impl CompoundDiceRoll {
    #[verifier::type_invariant]
    spec fn valid(&self) -> bool {
        valid_compound(self@)
    }

    /// The terms, in order.
    pub fn dice(&self) -> (dice: &Vec<Dice>)
        ensures
            views_of(dice@) == self@.dice,
            valid_compound(self@),
    {
        proof {
            use_type_invariant(self);
        }
        &self.dice
    }

    /// The operations, in order.
    pub fn ops(&self) -> (ops: &Vec<DiceArithmeticOp>)
        ensures
            ops@ == self@.ops,
            valid_compound(self@),
    {
        proof {
            use_type_invariant(self);
        }
        &self.ops
    }

    /// Reads an expression. The text is freed of white space and put in
    /// lowercase, its signs are collapsed, and what is left is read as
    /// [`expression_of`] says.
    pub fn parse(text: &str) -> (r: Result<CompoundDiceRoll, DiceError>)
        ensures
            reads(r, expression_of(normal_form(text@))),
    {
        let v = chars_of(text);
        let stripped = string_of(&strip(&v));
        let lowered = lowercase(stripped.as_str());
        let t = chars_of(lowered.as_str());
        CompoundDiceRoll::read(&t)
    }

    /// Reads an expression from characters that hold no white space and no
    /// uppercase letter: its signs are collapsed, and what is left is read
    /// as [`expression_of`] says.
    pub fn read(t: &Vec<char>) -> (r: Result<CompoundDiceRoll, DiceError>)
        ensures
            reads(r, expression_of(settled(collapsed(t@)))),
    {
        let s = settle_end(collapse(t));
        CompoundDiceRoll::read_normal(&s)
    }

    /// Reads an expression from its normal form. See [`expression_of`].
    #[verifier::loop_isolation(false)]
    pub fn read_normal(s: &Vec<char>) -> (r: Result<CompoundDiceRoll, DiceError>)
        ensures
            reads(r, expression_of(s@)),
    {
        let n = s.len();
        if n > 0 && (s[n - 1] == '*' || s[n - 1] == '/') {
            return Err(DiceError::new(ErrorKind::CompoundDiceExprInvalidOpStructure));
        }
        let spans = split(s, false);
        let first: usize = if n > 0 && sign(s[0]) {
            1
        } else {
            0
        };
        let ghost terms = terms_of(s@);
        proof {
            lemma_ops_len(s@);
            if n > 0 {
                lemma_first_field(s@);
            }
        }
        assert(terms.len() == spans.len() - first);
        assert(forall|k: int| 0 <= k < terms.len() ==> terms[k] == fields(s@, false)[k + first]);
        let mut k: usize = first;
        while k < spans.len()
            invariant
                first <= k <= spans.len(),
                terms.len() == spans.len() - first,
                forall|j: int|
                    0 <= j < spans.len() ==> {
                        &&& (#[trigger] spans[j]).0 <= spans[j].1 <= s.len()
                        &&& fields(s@, false)[j] == s@.subrange(
                            spans[j].0 as int,
                            spans[j].1 as int,
                        )
                    },
                forall|j: int| 0 <= j < terms.len() ==> terms[j] == fields(s@, false)[j + first],
                forall|j: int| 0 <= j < k - first ==> (#[trigger] terms[j]).len() > 0,
            decreases spans.len() - k,
        {
            if spans[k].1 == spans[k].0 {
                assert(terms[k - first].len() == 0);
                return Err(DiceError::new(ErrorKind::CompoundDiceExprInvalidOpStructure));
            }
            assert(terms[k - first].len() > 0);
            k += 1;
        }
        let mut dice: Vec<Dice> = Vec::new();
        let mut k: usize = first;
        while k < spans.len()
            invariant
                first <= k <= spans.len(),
                terms.len() == spans.len() - first,
                dice.len() == k - first,
                forall|j: int|
                    0 <= j < spans.len() ==> {
                        &&& (#[trigger] spans[j]).0 <= spans[j].1 <= s.len()
                        &&& fields(s@, false)[j] == s@.subrange(
                            spans[j].0 as int,
                            spans[j].1 as int,
                        )
                    },
                forall|j: int| 0 <= j < terms.len() ==> terms[j] == fields(s@, false)[j + first],
                forall|j: int|
                    0 <= j < k - first ==> (#[trigger] term_of(terms[j])) == Ok::<
                        DiceView,
                        ErrorKind,
                    >(dice[j]@),
                forall|j: int| 0 <= j < k - first ==> valid_dice(#[trigger] dice[j]@),
            decreases spans.len() - k,
        {
            let piece = slice(s, spans[k].0, spans[k].1);
            assert(piece@ == terms[k - first]);
            match Dice::read(&piece) {
                Ok(d) => {
                    let _ = d.amount();
                    dice.push(d);
                },
                Err(error) => {
                    proof {
                        lemma_first_error(terms, k - first);
                        assert(terms.skip(k - first)[0] == terms[k - first]);
                    }
                    return Err(error);
                },
            }
            k += 1;
        }
        proof {
            lemma_first_error(terms, terms.len() as int);
            assert(terms.skip(terms.len() as int).len() == 0);
        }
        let ops = find_ops(s);
        assert(views_of(dice@) == Seq::new(terms.len(), |i: int| term_of(terms[i]).unwrap()));
        Ok(CompoundDiceRoll { dice, ops })
    }
}

} // verus!
