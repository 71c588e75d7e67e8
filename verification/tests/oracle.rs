use denede::oracle::{endpoint, parse_reply, pseudo_random, receive, settle};
use denede::{sanitize_name, Dice, ErrorKind, Request, Step};

fn want(count: u16, low: u16, high: u16) -> Request {
    Request { count, low, high }
}

#[test]
fn the_address_names_what_is_wanted() {
    assert_eq!(
        endpoint(want(2, 1, 20)),
        "https://www.random.org/integers/?num=2&min=1&max=20&col=1&base=10&format=plain&rnd=new"
    );
    assert_eq!(
        endpoint(want(50, 0, 65535)),
        "https://www.random.org/integers/?num=50&min=0&max=65535&col=1&base=10&format=plain&rnd=new"
    );
}

#[test]
fn an_answer_is_read_line_by_line() {
    assert_eq!(parse_reply("12\n7\n", want(2, 1, 20)).unwrap(), vec![12, 7]);
    assert_eq!(parse_reply("12\n7", want(2, 1, 20)).unwrap(), vec![12, 7]);
    assert_eq!(parse_reply("12\r\n7\r\n", want(2, 1, 20)).unwrap(), vec![12, 7]);
    assert_eq!(parse_reply("3", want(1, 1, 6)).unwrap(), vec![3]);
    assert_eq!(parse_reply("007\n+5\n", want(2, 1, 20)).unwrap(), vec![7, 5]);
    assert_eq!(parse_reply("0\n65535\n", want(2, 0, 65535)).unwrap(), vec![0, 65535]);
}

#[test]
fn an_answer_must_begin_with_a_digit() {
    for body in ["", "Error: quota", "\n12\n7\n", " 12\n7\n", "+12\n7\n", "-1\n"] {
        assert_eq!(
            parse_reply(body, want(2, 1, 20)).unwrap_err().kind,
            ErrorKind::RandomOrgInvalidResponse,
            "{body:?}"
        );
    }
}

#[test]
fn every_line_must_be_a_number_of_the_range() {
    for body in [
        "12\nseven\n",
        "12\n\n7\n",
        "12\n7 \n",
        "12\n7\r",
        "12\r\r\n7\n",
        "12\n-7\n",
        "12\n70000\n",
        "12\n21\n",
        "0\n7\n",
        "12\n7\n\n",
        "12\n+\n",
        "12\n++7\n",
    ] {
        assert_eq!(
            parse_reply(body, want(2, 1, 20)).unwrap_err().kind,
            ErrorKind::RandomOrgOutOfRange,
            "{body:?}"
        );
    }
}

#[test]
fn an_answer_must_hold_as_many_numbers_as_were_asked_for() {
    assert_eq!(
        parse_reply("12\n", want(2, 1, 20)).unwrap_err().kind,
        ErrorKind::RandomOrgInvalidResponse
    );
    assert_eq!(
        parse_reply("12\n7\n3\n", want(2, 1, 20)).unwrap_err().kind,
        ErrorKind::RandomOrgInvalidResponse
    );
}

#[test]
fn the_local_generator_answers_the_request() {
    for (count, low, high) in [(0, 1, 6), (50, 1, 6), (200, 7, 7), (100, 0, 65535), (100, 3, 4)] {
        let draws = pseudo_random(want(count, low, high));
        assert_eq!(draws.len(), count as usize);
        assert!(draws.iter().all(|d| low <= *d && *d <= high));
    }
}

#[test]
fn the_local_generator_does_not_repeat_itself() {
    let first = pseudo_random(want(64, 0, 65535));
    let second = pseudo_random(want(64, 0, 65535));
    assert_ne!(first, second);
    assert!(first.iter().any(|d| *d != first[0]));
}

#[test]
fn a_good_answer_is_taken_as_it_is() {
    assert_eq!(settle(Some("12\n7\n"), want(2, 1, 20)), (vec![12, 7], true));
}

#[test]
fn a_bad_answer_is_replaced() {
    for reply in [None, Some("Error"), Some("12\n"), Some("12\n21\n"), Some("12\nx\n")] {
        let (draws, truly_random) = settle(reply, want(2, 1, 20));
        assert!(!truly_random);
        assert_eq!(draws.len(), 2);
        assert!(draws.iter().all(|d| 1 <= *d && *d <= 20));
    }
}

#[test]
fn a_roll_goes_on_with_what_the_oracle_sent() {
    let dice = Dice::parse("2d6e").unwrap();
    let Step::More(roll) = dice.roll() else { panic!("the dice have to be cast") };
    assert_eq!(
        endpoint(roll.request()),
        "https://www.random.org/integers/?num=2&min=1&max=6&col=1&base=10&format=plain&rnd=new"
    );
    let Step::More(roll) = roll.resume(Some("6\n6\n")) else { panic!("two dice exploded") };
    assert_eq!(roll.request(), want(2, 1, 6));
    let Step::More(roll) = roll.resume(Some("6\n1\n")) else { panic!("a die exploded") };
    assert_eq!(roll.request(), want(1, 1, 6));
    let Step::Done(Ok(result)) = roll.resume(Some("3\n")) else { panic!("no die exploded") };
    assert_eq!(result.text(), "6, 6, 6, 1, 3 = 22");
    assert!(result.truly_random());
}

#[test]
fn a_roll_goes_on_without_the_oracle() {
    let dice = Dice::parse("5d6").unwrap();
    let Step::More(roll) = dice.roll() else { panic!("the dice have to be cast") };
    let Step::Done(Ok(result)) = roll.resume(None) else { panic!("plain dice are cast once") };
    assert!(!result.truly_random());
    assert_eq!(result.seq().len(), 5);
    assert!(result.seq().iter().all(|v| 1 <= *v && *v <= 6));
    assert!(result.text().ends_with(" [pseudo-random]"));

    let Step::More(roll) = dice.roll() else { panic!("the dice have to be cast") };
    let Step::Done(Ok(result)) = roll.resume(Some("1\n2\n3\n4\n7\n")) else {
        panic!("plain dice are cast once")
    };
    assert!(!result.truly_random());
    assert!(result.seq().iter().all(|v| 1 <= *v && *v <= 6));
}

#[test]
fn open_ended_dice_end_without_the_oracle() {
    let dice = Dice::parse("20d100oe30").unwrap();
    let mut step = dice.roll();
    let mut asked = 0;
    let result = loop {
        match step {
            Step::Done(result) => break result.unwrap(),
            Step::More(roll) => {
                asked += 1;
                step = roll.resume(None);
            }
        }
    };
    assert!(asked >= 1);
    assert_eq!(result.seq().len(), 20);
    assert!(!result.truly_random());
}

#[test]
fn names_are_made_fit_for_addresses() {
    assert_eq!(sanitize_name("Ancient Red Dragon"), "ancient_red_dragon");
    assert_eq!(sanitize_name("goblin"), "goblin");
    assert_eq!(sanitize_name("  Two  Spaces "), "__two__spaces_");
    assert_eq!(sanitize_name("\u{c9}lan Vital\tX"), "\u{e9}lan_vital\tx");
    assert_eq!(sanitize_name(""), "");
}

#[test]
fn an_oracle_that_is_silent_is_unreachable() {
    assert_eq!(
        receive(None, want(2, 1, 20)).unwrap_err().kind,
        ErrorKind::RandomOrgUnreachable
    );
    assert_eq!(receive(Some("12\n7\n"), want(2, 1, 20)).unwrap(), vec![12, 7]);
    assert_eq!(
        receive(Some("12\n70\n"), want(2, 1, 20)).unwrap_err().kind,
        ErrorKind::RandomOrgOutOfRange
    );
    assert_eq!(
        receive(Some("<html>"), want(2, 1, 20)).unwrap_err().kind,
        ErrorKind::RandomOrgInvalidResponse
    );
}

/// Reads an answer with the means of the standard library.
fn read_by_std(body: &str, want: Request) -> Result<Vec<u16>, ErrorKind> {
    if !body.chars().next().is_some_and(|c| c.is_digit(10)) {
        return Err(ErrorKind::RandomOrgInvalidResponse);
    }
    let mut values = Vec::new();
    for line in body.lines() {
        match line.parse::<u16>() {
            Ok(value) if want.low <= value && value <= want.high => values.push(value),
            _ => return Err(ErrorKind::RandomOrgOutOfRange),
        }
    }
    if values.len() != want.count as usize {
        return Err(ErrorKind::RandomOrgInvalidResponse);
    }
    Ok(values)
}

#[test]
fn an_answer_is_read_as_the_standard_library_reads_it() {
    let alphabet = ['0', '1', '2', '6', '9', '\n', '\n', '\r', '+', '-', ' ', 'x'];
    let mut state: u64 = 0x2545f4914f6cdd1d;
    let mut next = move || {
        state ^= state << 13;
        state ^= state >> 7;
        state ^= state << 17;
        state
    };
    for _ in 0..50000 {
        let len = next() % 10;
        let body: String = (0..len)
            .map(|_| alphabet[(next() % alphabet.len() as u64) as usize])
            .collect();
        let asked = want((next() % 4) as u16, (next() % 3) as u16, 2 + (next() % 700) as u16);
        assert_eq!(
            parse_reply(&body, asked).map_err(|e| e.kind),
            read_by_std(&body, asked),
            "{body:?} {asked:?}"
        );
    }
}
