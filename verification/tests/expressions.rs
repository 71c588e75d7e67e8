use denede::{
    CompoundDiceResult, CompoundDiceRoll, DiceArithmeticOp, DiceError, DiceResult, DieKind,
    ErrorKind, Step,
};

/// Rolls every term of `text` against an oracle that answers with `script`,
/// one entry for each request, in the order of the terms.
fn roll_all(roll: &CompoundDiceRoll, script: &[&[u16]]) -> Vec<Result<DiceResult, DiceError>> {
    let mut asked = 0;
    let mut rolls = Vec::new();
    for dice in roll.dice() {
        let mut step = dice.roll();
        loop {
            match step {
                Step::Done(result) => {
                    rolls.push(result);
                    break;
                }
                Step::More(pending) => {
                    let want = pending.request();
                    let draws = script[asked].to_vec();
                    assert!(pending.accepts(&draws), "{draws:?} do not answer {want:?}");
                    asked += 1;
                    step = pending.advance(draws, true);
                }
            }
        }
    }
    assert_eq!(asked, script.len(), "the oracle had more to say");
    rolls
}

fn evaluate(text: &str, script: &[&[u16]]) -> Result<CompoundDiceResult, DiceError> {
    let roll = CompoundDiceRoll::parse(text)?;
    let rolls = roll_all(&roll, script);
    roll.result(&rolls)
}

fn shown(text: &str, script: &[&[u16]]) -> String {
    evaluate(text, script).expect("a result").text().expect("a whole number")
}

fn total(text: &str, script: &[&[u16]]) -> i32 {
    evaluate(text, script).expect("a result").total().expect("a whole number")
}

fn refused(text: &str) -> ErrorKind {
    CompoundDiceRoll::parse(text).expect_err("an invalid expression").kind
}

fn shape(text: &str) -> (Vec<(u16, u16, DieKind, Vec<u16>)>, Vec<DiceArithmeticOp>) {
    let roll = CompoundDiceRoll::parse(text).expect("a valid expression");
    let dice = roll
        .dice()
        .iter()
        .map(|d| (d.amount(), d.sides(), d.kind(), d.args().clone()))
        .collect();
    (dice, roll.ops().clone())
}

#[test]
fn terms_and_operations_are_read_in_order() {
    let (dice, ops) = shape("2d20+5");
    assert_eq!(
        dice,
        vec![(2, 20, DieKind::Regular, vec![]), (5, 1, DieKind::Regular, vec![])]
    );
    assert_eq!(ops, vec![DiceArithmeticOp::Add]);
    let (dice, ops) = shape("-4d6k3*2/d4-1");
    assert_eq!(
        dice,
        vec![
            (4, 6, DieKind::Keep, vec![3]),
            (2, 1, DieKind::Regular, vec![]),
            (1, 4, DieKind::Regular, vec![]),
            (1, 1, DieKind::Regular, vec![]),
        ]
    );
    assert_eq!(
        ops,
        vec![
            DiceArithmeticOp::Subtract,
            DiceArithmeticOp::Multiply,
            DiceArithmeticOp::Divide,
            DiceArithmeticOp::Subtract,
        ]
    );
}

#[test]
fn white_space_and_case_do_not_matter() {
    assert_eq!(
        CompoundDiceRoll::parse("2d20+5").unwrap(),
        CompoundDiceRoll::parse("  2 D 20 + 5 ").unwrap()
    );
    assert_eq!(
        CompoundDiceRoll::parse("4d6k3").unwrap(),
        CompoundDiceRoll::parse("4\tD6\u{a0}K\n3\u{2003}").unwrap()
    );
    assert_eq!(
        CompoundDiceRoll::parse("4d6k3").unwrap(),
        CompoundDiceRoll::parse("4d6\u{212a}3").unwrap()
    );
}

#[test]
fn rows_of_signs_collapse() {
    assert_eq!(
        CompoundDiceRoll::parse("2d20 - - +5").unwrap(),
        CompoundDiceRoll::parse("2d20 + 5").unwrap()
    );
    assert_eq!(shape("2d20---5"), shape("2d20-5"));
    assert_eq!(shape("2d20+-+-5"), shape("2d20+5"));
    assert_eq!(shape("2d20-+5"), shape("2d20-5"));
    assert_eq!(shape("2d20+++++5"), shape("2d20+5"));
    assert_eq!(shape("--2d20"), shape("+2d20"));
    assert_eq!(shape("+2d20").1, vec![DiceArithmeticOp::Add]);
    assert_eq!(shape("--+-2d20").1, vec![DiceArithmeticOp::Subtract]);
}

#[test]
fn a_plus_at_the_end_says_nothing() {
    assert_eq!(
        CompoundDiceRoll::parse("2d20+").unwrap(),
        CompoundDiceRoll::parse("2d20").unwrap()
    );
    assert_eq!(shape("2d20+5--"), shape("2d20+5"));
    assert_eq!(shape("2d20+5+-+-"), shape("2d20+5"));
}

#[test]
fn a_minus_at_the_end_negates_the_whole() {
    assert_eq!(shape("2d20-"), shape("-2d20"));
    assert_eq!(shape("2d20+5-"), shape("-2d20-5"));
    assert_eq!(shape("-2d20+5-"), shape("+2d20-5"));
    assert_eq!(shape("2d20-5*3-"), shape("-2d20+5*3"));
    assert_eq!(total("2d20+5-", &[&[12, 7]]), -24);
    assert_eq!(total("2d20+5", &[&[12, 7]]), 24);
}

#[test]
fn a_product_or_quotient_needs_both_sides() {
    assert_eq!(refused("2d20*"), ErrorKind::CompoundDiceExprInvalidOpStructure);
    assert_eq!(refused("2d20/"), ErrorKind::CompoundDiceExprInvalidOpStructure);
    assert_eq!(refused("2d20*+"), ErrorKind::CompoundDiceExprInvalidOpStructure);
    assert_eq!(refused("2d20/-"), ErrorKind::CompoundDiceExprInvalidOpStructure);
    assert_eq!(refused("*2d20"), ErrorKind::CompoundDiceExprInvalidOpStructure);
    assert_eq!(refused("2d20**5"), ErrorKind::CompoundDiceExprInvalidOpStructure);
    assert_eq!(refused("2d20*/5"), ErrorKind::CompoundDiceExprInvalidOpStructure);
    assert_eq!(refused("2d20*-5"), ErrorKind::CompoundDiceExprInvalidOpStructure);
    assert_eq!(refused("2d20+*5"), ErrorKind::CompoundDiceExprInvalidOpStructure);
}

#[test]
fn nothing_is_no_expression() {
    assert_eq!(refused(""), ErrorKind::CompoundDiceExprInvalidOpStructure);
    assert_eq!(refused("   "), ErrorKind::CompoundDiceExprInvalidOpStructure);
    assert_eq!(refused("+"), ErrorKind::CompoundDiceExprInvalidOpStructure);
    assert_eq!(refused("-"), ErrorKind::CompoundDiceExprInvalidOpStructure);
    assert_eq!(refused("+-"), ErrorKind::CompoundDiceExprInvalidOpStructure);
}

#[test]
fn the_first_term_that_fails_gives_the_error() {
    assert_eq!(refused("100d6"), ErrorKind::DiceAmountTooLarge);
    assert_eq!(refused("2d20+100d6"), ErrorKind::DiceAmountTooLarge);
    assert_eq!(refused("2d2000+100d6"), ErrorKind::DiceTooManySides);
    assert_eq!(refused("2d6x+100d6"), ErrorKind::DiceStringInvalidOp);
    assert_eq!(refused("2d6+70000"), ErrorKind::DiceStringNumberTooLarge);
    assert_eq!(refused("2d6+1k2d3e4"), ErrorKind::DiceStringTooManyParts);
    assert_eq!(refused("2d6+(3)"), ErrorKind::DiceStringInvalidCharacters);
    assert_eq!(refused("2d6+\u{e9}"), ErrorKind::DiceStringInvalidCharacters);
    assert_eq!(refused("2d20**100d6"), ErrorKind::CompoundDiceExprInvalidOpStructure);
}

#[test]
fn a_sum_of_dice_and_a_number() {
    assert_eq!(shown("2d20+5", &[&[12, 7]]), "12, 7 = 19; 5; = 24");
    assert_eq!(shown("2d6+5", &[&[4, 2]]), "4, 2 = 6; 5; = 11");
}

#[test]
fn a_single_term_is_shown_without_a_total() {
    assert_eq!(shown("4d6k3", &[&[6, 2, 4, 5]]), "6, 4, 5 = 15");
    assert_eq!(shown("3d6s4", &[&[3, 5, 6]]), "3, 5, 6 >= 4 = 2");
    assert_eq!(shown("1d6e6", &[&[6], &[6], &[3]]), "6, 6, 3 = 15");
    assert_eq!(shown("-1d20", &[&[9]]), "9");
    assert_eq!(total("-1d20", &[&[9]]), -9);
}

#[test]
fn too_many_dice_are_refused_before_any_is_cast() {
    assert_eq!(evaluate("100d6", &[]).unwrap_err().kind, ErrorKind::DiceAmountTooLarge);
    assert_eq!(evaluate("100d6k200", &[]).unwrap_err().kind, ErrorKind::DiceAmountTooLarge);
}

#[test]
fn a_division_by_zero_is_an_error() {
    assert_eq!(
        evaluate("1d20 / 0d6", &[&[7]]).unwrap_err().kind,
        ErrorKind::DiceExprDivisionByZero
    );
    assert_eq!(
        evaluate("1d20 / 0", &[&[7]]).unwrap_err().kind,
        ErrorKind::DiceExprDivisionByZero
    );
    assert_eq!(
        evaluate("5/3d6s7", &[]).unwrap_err().kind,
        ErrorKind::DiceExprDivisionByZero
    );
    assert_eq!(
        evaluate("0/0", &[]).unwrap_err().kind,
        ErrorKind::DiceExprDivisionByZero
    );
}

#[test]
fn a_zero_that_is_not_a_divisor_is_no_error() {
    let result = evaluate("0/5", &[]).unwrap();
    assert_eq!(result.total(), None);
    assert_eq!(result.sums(), &vec![0, 5]);
    assert_eq!(result.ops(), &vec![DiceArithmeticOp::Add, DiceArithmeticOp::Divide]);
    assert_eq!(total("0*5", &[]), 0);
}

#[test]
fn one_failed_roll_gives_its_error() {
    assert_eq!(
        evaluate("2d6+2d6k3", &[&[1, 2]]).unwrap_err().kind,
        ErrorKind::DiceExprInvalidArgument
    );
    assert_eq!(
        evaluate("2d1e+2d6", &[&[1, 2]]).unwrap_err().kind,
        ErrorKind::DiceExprInvalidSides
    );
    assert_eq!(
        evaluate("2d6k3/0", &[]).unwrap_err().kind,
        ErrorKind::DiceExprInvalidArgument
    );
}

#[test]
fn several_failed_rolls_give_one_error() {
    assert_eq!(
        evaluate("2d6k3+2d1e", &[]).unwrap_err().kind,
        ErrorKind::CompoundDiceMultipleRollErrors
    );
    assert_eq!(
        evaluate("2d6r7+2d6+2d6r7", &[&[1, 2]]).unwrap_err().kind,
        ErrorKind::CompoundDiceMultipleRollErrors
    );
    assert_eq!(
        evaluate("1/0+2d6r7+2d6r7", &[]).unwrap_err().kind,
        ErrorKind::CompoundDiceMultipleRollErrors
    );
}

#[test]
fn the_total_goes_from_left_to_right() {
    assert_eq!(total("2+3*4", &[]), 20);
    assert_eq!(total("2*3+4", &[]), 10);
    assert_eq!(total("2-3*4", &[]), -4);
    assert_eq!(total("-2-3", &[]), -5);
    assert_eq!(total("10-2-3", &[]), 5);
}

#[test]
fn a_first_product_multiplies_nothing() {
    assert_eq!(refused("*5"), ErrorKind::CompoundDiceExprInvalidOpStructure);
    assert_eq!(total("+5*3", &[]), 15);
    assert_eq!(total("-5*3", &[]), -15);
}

#[test]
fn successes_count_in_the_text_but_sums_in_the_total() {
    let result = evaluate("3d6s4+1", &[&[3, 5, 6]]).unwrap();
    assert_eq!(result.sums(), &vec![14, 1]);
    assert_eq!(result.total(), Some(15));
    assert_eq!(result.text().unwrap(), "3, 5, 6 >= 4 = 2; 1; = 15");
}

#[test]
fn a_quotient_has_no_whole_total() {
    let result = evaluate("1d20/4", &[&[10]]).unwrap();
    assert_eq!(result.total(), None);
    assert_eq!(result.text(), None);
    assert_eq!(result.sums(), &vec![10, 4]);
    assert_eq!(result.ops(), &vec![DiceArithmeticOp::Add, DiceArithmeticOp::Divide]);
    let mut value = 0.0f64;
    for (sum, op) in result.sums().iter().zip(result.ops()) {
        match op {
            DiceArithmeticOp::Add => value += *sum as f64,
            DiceArithmeticOp::Subtract => value -= *sum as f64,
            DiceArithmeticOp::Multiply => value *= *sum as f64,
            DiceArithmeticOp::Divide => value /= *sum as f64,
        }
    }
    assert_eq!(result.text_with(&format!("{:.2}", value)), "10; 4; = 2.50");
}

#[test]
fn totals_stay_in_thirty_two_bits() {
    assert_eq!(total("65535*65535", &[]), i32::MAX);
    assert_eq!(total("65535*65535+1", &[]), i32::MAX);
    assert_eq!(total("65535*65535-10", &[]), i32::MAX - 10);
    assert_eq!(total("-65535*65535", &[]), i32::MIN);
    assert_eq!(total("-65535*65535*2", &[]), i32::MIN);
    assert_eq!(total("46340*46341", &[]), 2147441940);
}

#[test]
fn every_term_has_its_result_in_order() {
    let result = evaluate("2d6+3d4-1d8", &[&[1, 2], &[3, 4, 1], &[8]]).unwrap();
    let seqs: Vec<Vec<i32>> = result.individuals().iter().map(|r| r.seq().clone()).collect();
    assert_eq!(seqs, vec![vec![1, 2], vec![3, 4, 1], vec![8]]);
    assert_eq!(result.total(), Some(3));
    assert_eq!(result.text().unwrap(), "1, 2 = 3; 3, 4, 1 = 8; 8; = 3");
}

#[test]
fn operations_are_read_from_their_signs() {
    assert_eq!(DiceArithmeticOp::from('+'), DiceArithmeticOp::Add);
    assert_eq!(DiceArithmeticOp::from('-'), DiceArithmeticOp::Subtract);
    assert_eq!(DiceArithmeticOp::from('*'), DiceArithmeticOp::Multiply);
    assert_eq!(DiceArithmeticOp::from('/'), DiceArithmeticOp::Divide);
}
