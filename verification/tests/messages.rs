use denede::message::{pack, sentence, MESSAGE_LIMIT};
use denede::ErrorKind;

#[test]
fn errors_of_rolling_have_words() {
    assert_eq!(
        sentence(ErrorKind::DiceExprDivisionByZero),
        Some("Zounds! My calculations have fallen into a division by naught!")
    );
    assert_eq!(
        sentence(ErrorKind::DiceAmountTooLarge),
        Some(
            "Forgive me, good adventurer; I am overwhelmed by a surplus of dice \
             in this casting, for I can count but fifty at most!"
        )
    );
    assert_eq!(
        sentence(ErrorKind::DiceTooManySides),
        Some(
            "I beg your pardon, for the die you summoned bears too many faces; \
             its sides must be fewer than a thousand for my humble reckoning!"
        )
    );
    assert_eq!(
        sentence(ErrorKind::DiceExprInvalidSides),
        Some(
            "The number of sides thou hast named doth not accord with the operation \
             thou hast chosen."
        )
    );
    assert_eq!(
        sentence(ErrorKind::DiceExprInvalidArgument),
        Some(
            "A flaw dwells in one quality of the operation thou hast invoked. \
             Prithee, examine the exact requirements anew!"
        )
    );
    assert_eq!(
        sentence(ErrorKind::CompoundDiceMultipleRollErrors),
        Some(
            "More than one of the rolls thou hast named hath yielded an error. \
             I pray thee, examine each in turn!"
        )
    );
}

#[test]
fn errors_of_reading_have_no_words() {
    for kind in [
        ErrorKind::RandomOrgOutOfRange,
        ErrorKind::RandomOrgInvalidResponse,
        ErrorKind::RandomOrgUnreachable,
        ErrorKind::DiceStringInvalidCharacters,
        ErrorKind::DiceStringTooManyParts,
        ErrorKind::DiceStringInvalidOp,
        ErrorKind::DiceStringNumberTooLarge,
        ErrorKind::CompoundDiceExprInvalidOpStructure,
    ] {
        assert_eq!(sentence(kind), None);
    }
}

#[test]
fn replies_are_put_into_messages() {
    assert_eq!(MESSAGE_LIMIT, 2000);
    assert_eq!(pack(&vec![]), vec![0]);
    assert_eq!(pack(&vec![10, 20, 30]), vec![3]);
    assert_eq!(pack(&vec![1000, 1000]), vec![2]);
    assert_eq!(pack(&vec![1000, 1001]), vec![1, 2]);
    assert_eq!(pack(&vec![1500, 400, 200, 1900, 100, 1]), vec![2, 3, 5, 6]);
    assert_eq!(pack(&vec![2001]), vec![0, 1]);
    assert_eq!(pack(&vec![5, 2001, 5]), vec![1, 2, 3]);
    assert_eq!(pack(&vec![usize::MAX, usize::MAX]), vec![0, 1, 2]);
}
