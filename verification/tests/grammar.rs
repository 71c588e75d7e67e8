use denede::compound::{collapse, settle_end, strip};
use denede::dice::{find_runs, is_alnum};
use denede::message::{expressions_in, strip_brackets};
use denede::text::{chars_of, split};
use regex::Regex;

/// A source of texts that is the same on every run.
struct Texts {
    state: u64,
}

impl Texts {
    fn new(seed: u64) -> Texts {
        Texts { state: seed }
    }

    fn next(&mut self) -> u64 {
        self.state ^= self.state << 13;
        self.state ^= self.state >> 7;
        self.state ^= self.state << 17;
        self.state
    }

    fn text(&mut self, alphabet: &[char], longest: u64) -> String {
        let len = self.next() % (longest + 1);
        (0..len)
            .map(|_| alphabet[(self.next() % alphabet.len() as u64) as usize])
            .collect()
    }
}

fn spans_of(text: &str, spans: &[(usize, usize)]) -> Vec<String> {
    let chars: Vec<char> = text.chars().collect();
    spans.iter().map(|(from, to)| chars[*from..*to].iter().collect()).collect()
}

#[test]
fn white_space_is_what_the_pattern_for_it_matches() {
    let pattern = Regex::new(r"\s+").unwrap();
    let alphabet = [
        'a', '1', '+', ' ', '\t', '\n', '\r', '\u{b}', '\u{c}', '\u{85}', '\u{a0}', '\u{1680}',
        '\u{2000}', '\u{2005}', '\u{200a}', '\u{200b}', '\u{2028}', '\u{2029}', '\u{202f}',
        '\u{205f}', '\u{3000}', '\u{feff}', '\u{180e}', '\u{1c}', '\u{8}', '\u{e}', '\u{1fff}',
    ];
    let mut texts = Texts::new(0x9e3779b97f4a7c15);
    for _ in 0..2000 {
        let text = texts.text(&alphabet, 12);
        let stripped: String = strip(&chars_of(&text)).iter().collect();
        assert_eq!(stripped, pattern.replace_all(&text, ""), "{text:?}");
    }
    for c in (0..=0x3100u32).filter_map(char::from_u32) {
        let text = c.to_string();
        let stripped: String = strip(&chars_of(&text)).iter().collect();
        assert_eq!(stripped, pattern.replace_all(&text, ""), "{c:?}");
    }
}

#[test]
fn a_term_holds_what_the_pattern_for_it_matches() {
    let pattern = Regex::new(r"^[a-z0-9]+$").unwrap();
    let alphabet = [
        'a', 'z', 'd', '0', '9', '5', 'A', ' ', '\n', '-', '\u{e9}', '{', '`', '/', ':',
    ];
    let mut texts = Texts::new(7);
    for _ in 0..5000 {
        let text = texts.text(&alphabet, 4);
        assert_eq!(is_alnum(&chars_of(&text)), pattern.is_match(&text), "{text:?}");
    }
}

#[test]
fn words_and_numbers_are_what_the_patterns_split() {
    let digits = Regex::new(r"\d+").unwrap();
    let others = Regex::new(r"\D+").unwrap();
    let alphabet = ['d', 'k', 'e', 's', 'o', 'l', 'h', '0', '1', '2', '6', '9'];
    let mut texts = Texts::new(11);
    for _ in 0..5000 {
        let text = texts.text(&alphabet, 10);
        let chars = chars_of(&text);
        let words: Vec<&str> = digits.split(&text).filter(|w| !w.is_empty()).collect();
        assert_eq!(spans_of(&text, &find_runs(&chars, false)), words, "{text:?}");
        let numbers: Vec<&str> = others.split(&text).filter(|n| !n.is_empty()).collect();
        assert_eq!(spans_of(&text, &find_runs(&chars, true)), numbers, "{text:?}");
    }
}

#[test]
fn terms_are_what_the_pattern_for_operations_splits() {
    let pattern = Regex::new(r"[\+\-\*\/]").unwrap();
    let alphabet = ['2', 'd', '6', 'k', '+', '-', '*', '/'];
    let mut texts = Texts::new(13);
    for _ in 0..5000 {
        let text = texts.text(&alphabet, 10);
        let pieces: Vec<&str> = pattern.split(&text).collect();
        assert_eq!(spans_of(&text, &split(&chars_of(&text), false)), pieces, "{text:?}");
    }
}

/// Rewrites rows of signs until nothing changes, one pattern after the other.
fn rewritten(text: &str) -> String {
    let pluses = Regex::new(r"\+\++").unwrap();
    let minuses = Regex::new(r"(\-\-)+").unwrap();
    let minus_plus = Regex::new(r"\-\+").unwrap();
    let plus_minus = Regex::new(r"\+\-").unwrap();
    let mut text = text.to_string();
    loop {
        let new_text = pluses.replace_all(&text, "+");
        let new_text = minuses.replace_all(&new_text, "+");
        let new_text = minus_plus.replace_all(&new_text, "-");
        let new_text = plus_minus.replace_all(&new_text, "-");
        if new_text == text {
            return text;
        }
        text = new_text.to_string();
    }
}

#[test]
fn rows_of_signs_collapse_as_rewriting_them_does() {
    let alphabet = ['+', '-', '+', '-', '2', 'd', '*', '/'];
    let mut texts = Texts::new(17);
    for _ in 0..20000 {
        let text = texts.text(&alphabet, 14);
        let collapsed: String = collapse(&chars_of(&text)).iter().collect();
        assert_eq!(collapsed, rewritten(&text), "{text:?}");
    }
}

/// Takes the sign from the end of a text, negating the text for a minus.
fn without_its_end(text: &str) -> String {
    let mut text = text.to_string();
    if text.ends_with('+') {
        text.pop();
    } else if text.ends_with('-') {
        text.pop();
        text = text
            .chars()
            .map(|c| match c {
                '+' => '-',
                '-' => '+',
                c => c,
            })
            .collect();
        if !text.starts_with('-') && !text.starts_with('+') {
            text = format!("-{}", text);
        }
    }
    text
}

#[test]
fn a_sign_at_the_end_is_taken_off() {
    let alphabet = ['+', '-', '2', 'd', '*', '/'];
    let mut texts = Texts::new(19);
    for _ in 0..20000 {
        let text = texts.text(&alphabet, 8);
        let settled: String = settle_end(chars_of(&text)).iter().collect();
        assert_eq!(settled, without_its_end(&text), "{text:?}");
    }
    assert_eq!(settle_end(vec!['-']), vec!['-']);
    assert_eq!(settle_end(vec!['+']), Vec::<char>::new());
    assert_eq!(settle_end(vec![]), Vec::<char>::new());
}

#[test]
fn expressions_are_what_the_pattern_for_brackets_finds() {
    let pattern = Regex::new(r"\[[^\[]+?\]").unwrap();
    let alphabet = ['[', ']', '[', ']', '2', 'd', ' ', '\n', '\u{e9}'];
    let mut texts = Texts::new(23);
    for _ in 0..20000 {
        let text = texts.text(&alphabet, 12);
        let found: Vec<String> = pattern
            .find_iter(&text)
            .map(|m| m.as_str()[1..m.len() - 1].to_string())
            .collect();
        assert_eq!(expressions_in(&text), found, "{text:?}");
    }
}

#[test]
fn expressions_are_found_in_a_message() {
    assert_eq!(expressions_in("I attack! [1d20+5] and [2d6]"), vec!["1d20+5", "2d6"]);
    assert_eq!(expressions_in("no dice here"), Vec::<String>::new());
    assert_eq!(expressions_in("[]"), Vec::<String>::new());
    assert_eq!(expressions_in("[]]"), vec!["]"]);
    assert_eq!(expressions_in("[[2d6]]"), vec!["2d6"]);
    assert_eq!(expressions_in("[2d6"), Vec::<String>::new());
    assert_eq!(expressions_in("[a][b]"), vec!["a", "b"]);
    assert_eq!(expressions_in("[a[b]c]"), vec!["b"]);
}

#[test]
fn brackets_around_an_expression_are_taken_off() {
    assert_eq!(strip_brackets("[2d6]"), "2d6");
    assert_eq!(strip_brackets("2d6"), "2d6");
    assert_eq!(strip_brackets("[2d6"), "[2d6");
    assert_eq!(strip_brackets("2d6]"), "2d6]");
    assert_eq!(strip_brackets("[]"), "");
    assert_eq!(strip_brackets("["), "[");
    assert_eq!(strip_brackets(""), "");
    assert_eq!(strip_brackets("[[2d6]]"), "[2d6]");
}
