//! What a chat has to do with dice: finding expressions in a message, and
//! putting errors into words.

use crate::error::ErrorKind;
use crate::text::{chars_of, slice, string_of};
use vstd::prelude::*;

verus! {

/// The longest text that fits in one message.
pub const MESSAGE_LIMIT: usize = 2000;

/// Where the bracket that opens at `open` closes, looking from `at` on: at
/// the first `]` that stands two places or more behind the `[`, unless
/// another `[` comes before it.
pub open spec fn closing(s: Seq<char>, open: int, at: int) -> Option<int>
    decreases s.len() - at,
{
    if at < 0 || at >= s.len() {
        None
    } else if s[at] == '[' {
        None
    } else if s[at] == ']' && at >= open + 2 {
        Some(at)
    } else {
        closing(s, open, at + 1)
    }
}

/// The texts in brackets that `s` holds from `from` on, without their
/// brackets. A text in brackets is one character or more, none of them a
/// `[`; it ends as early as it can, and the next is looked for behind it.
pub open spec fn bracketed(s: Seq<char>, from: int) -> Seq<Seq<char>>
    decreases s.len() - from,
{
    if from < 0 || from >= s.len() {
        Seq::empty()
    } else {
        let close = closing(s, from, from + 1);
        if s[from] == '[' && close is Some && from < close.unwrap() < s.len() {
            seq![s.subrange(from + 1, close.unwrap())] + bracketed(s, close.unwrap() + 1)
        } else {
            bracketed(s, from + 1)
        }
    }
}

/// How far the replies of the given lengths have been put into messages
/// once the first `n` are placed: where each full message ends, and how
/// long the message is that is still open. A reply begins a new message
/// if the open one would pass the limit with it.
pub open spec fn packed(lengths: Seq<usize>, n: nat) -> (Seq<int>, int)
    decreases n,
{
    if n == 0 {
        (Seq::empty(), 0)
    } else {
        let (ends, open) = packed(lengths, (n - 1) as nat);
        if open + lengths[n - 1] > MESSAGE_LIMIT {
            (ends.push(n - 1), lengths[n - 1] as int)
        } else {
            (ends, open + lengths[n - 1])
        }
    }
}

/// Where each message ends that the replies of the given lengths are put
/// into: the messages hold the replies in order, and the last one ends
/// with the last reply.
pub open spec fn message_ends(lengths: Seq<usize>) -> Seq<int> {
    packed(lengths, lengths.len()).0.push(lengths.len() as int)
}

/// `s` without the brackets around it, if it has both.
pub open spec fn unbracketed(s: Seq<char>) -> Seq<char> {
    if s.len() > 0 && s[0] == '[' && s.last() == ']' {
        s.subrange(1, s.len() - 1)
    } else {
        s
    }
}

/// The words for an error of rolling, for those that have words.
pub open spec fn sentence_of(kind: ErrorKind) -> Option<Seq<char>> {
    match kind {
        ErrorKind::DiceExprDivisionByZero => Some(
            "Zounds! My calculations have fallen into a division by naught!"@,
        ),
        ErrorKind::DiceAmountTooLarge => Some(
            "Forgive me, good adventurer; I am overwhelmed by a surplus of dice \
             in this casting, for I can count but fifty at most!"@,
        ),
        ErrorKind::DiceTooManySides => Some(
            "I beg your pardon, for the die you summoned bears too many faces; \
             its sides must be fewer than a thousand for my humble reckoning!"@,
        ),
        ErrorKind::DiceExprInvalidSides => Some(
            "The number of sides thou hast named doth not accord with the operation \
             thou hast chosen."@,
        ),
        ErrorKind::DiceExprInvalidArgument => Some(
            "A flaw dwells in one quality of the operation thou hast invoked. \
             Prithee, examine the exact requirements anew!"@,
        ),
        ErrorKind::CompoundDiceMultipleRollErrors => Some(
            "More than one of the rolls thou hast named hath yielded an error. \
             I pray thee, examine each in turn!"@,
        ),
        _ => None,
    }
}

/// A bracket closes at a `]` behind the place from which it is looked for,
/// with no `[` between.
pub proof fn law_closing(s: Seq<char>, open: int, at: int)
    requires
        0 <= open < at,
    ensures
        closing(s, open, at) matches Some(close) ==> {
            &&& at <= close < s.len()
            &&& open + 2 <= close
            &&& s[close] == ']'
            &&& forall|i: int| at <= i < close ==> #[trigger] s[i] != '['
        },
    decreases s.len() - at,
{
    if at < s.len() && s[at] != '[' && !(s[at] == ']' && at >= open + 2) {
        law_closing(s, open, at + 1);
    }
}

/// Where the bracket that opens at `open` closes. See [`closing`].
pub fn find_close(v: &Vec<char>, open: usize) -> (close: Option<usize>)
    requires
        open < v.len(),
    ensures
        match close {
            Some(close) => closing(v@, open as int, open + 1) == Some(close as int) && open
                < close < v.len(),
            None => closing(v@, open as int, open + 1) is None,
        },
{
    let mut at: usize = open + 1;
    while at < v.len()
        invariant
            open < at <= v.len(),
            closing(v@, open as int, open + 1) == closing(v@, open as int, at as int),
        decreases v.len() - at,
    {
        if v[at] == '[' {
            return None;
        }
        if v[at] == ']' && at >= open + 2 {
            return Some(at);
        }
        at += 1;
    }
    None
}

/// The texts in brackets that a message holds, without their brackets.
/// See [`bracketed`].
pub fn expressions_in(content: &str) -> (found: Vec<String>)
    ensures
        found.len() == bracketed(content@, 0).len(),
        forall|i: int| 0 <= i < found.len() ==> (#[trigger] found[i])@ == bracketed(content@, 0)[i],
{
    let v = chars_of(content);
    let ghost mut seen: Seq<Seq<char>> = Seq::empty();
    let mut found: Vec<String> = Vec::new();
    let mut from: usize = 0;
    while from < v.len()
        invariant
            from <= v.len(),
            v@ == content@,
            bracketed(v@, 0) == seen + bracketed(v@, from as int),
            seen.len() == found.len(),
            forall|i: int| 0 <= i < found.len() ==> (#[trigger] found[i])@ == seen[i],
        decreases v.len() - from,
    {
        if v[from] == '[' {
            match find_close(&v, from) {
                Some(close) => {
                    let inner = slice(&v, from + 1, close);
                    proof {
                        assert(bracketed(v@, from as int) == seq![inner@] + bracketed(
                            v@,
                            close + 1,
                        ));
                        assert(seen + (seq![inner@] + bracketed(v@, close + 1)) == seen.push(
                            inner@,
                        ) + bracketed(v@, close + 1));
                        seen = seen.push(inner@);
                    }
                    found.push(string_of(&inner));
                    from = close + 1;
                },
                None => {
                    from = from + 1;
                },
            }
        } else {
            from = from + 1;
        }
    }
    assert(bracketed(v@, from as int) == Seq::<Seq<char>>::empty());
    assert(seen + Seq::<Seq<char>>::empty() == seen);
    found
}

/// Where each message ends that the replies of the given lengths are put
/// into. See [`message_ends`].
pub fn pack(lengths: &Vec<usize>) -> (ends: Vec<usize>)
    ensures
        ends.len() == message_ends(lengths@).len(),
        forall|i: int| 0 <= i < ends.len() ==> #[trigger] ends[i] == message_ends(lengths@)[i],
{
    let mut ends: Vec<usize> = Vec::new();
    let mut open: usize = 0;
    let mut i: usize = 0;
    while i < lengths.len()
        invariant
            i <= lengths.len(),
            open == packed(lengths@, i as nat).1,
            ends.len() == packed(lengths@, i as nat).0.len(),
            forall|k: int|
                0 <= k < ends.len() ==> #[trigger] ends[k] == packed(lengths@, i as nat).0[k],
        decreases lengths.len() - i,
    {
        let next = lengths[i];
        if open > MESSAGE_LIMIT || next > MESSAGE_LIMIT - open {
            ends.push(i);
            open = next;
        } else {
            open = open + next;
        }
        i += 1;
    }
    ends.push(lengths.len());
    ends
}

/// The text without the brackets around it, if it has both. See
/// [`unbracketed`].
pub fn strip_brackets(text: &str) -> (inner: String)
    ensures
        inner@ == unbracketed(text@),
{
    let v = chars_of(text);
    let n = v.len();
    if n > 0 && v[0] == '[' && v[n - 1] == ']' {
        string_of(&slice(&v, 1, n - 1))
    } else {
        assert(v@.subrange(0, n as int) == v@);
        string_of(&slice(&v, 0, n))
    }
}

/// The words for an error of rolling, for those that have words. See
/// [`sentence_of`].
pub fn sentence(kind: ErrorKind) -> (words: Option<&'static str>)
    ensures
        match words {
            Some(words) => sentence_of(kind) == Some(words@),
            None => sentence_of(kind) is None,
        },
{
    match kind {
        ErrorKind::DiceExprDivisionByZero => Some(
            "Zounds! My calculations have fallen into a division by naught!",
        ),
        ErrorKind::DiceAmountTooLarge => Some(
            "Forgive me, good adventurer; I am overwhelmed by a surplus of dice \
             in this casting, for I can count but fifty at most!",
        ),
        ErrorKind::DiceTooManySides => Some(
            "I beg your pardon, for the die you summoned bears too many faces; \
             its sides must be fewer than a thousand for my humble reckoning!",
        ),
        ErrorKind::DiceExprInvalidSides => Some(
            "The number of sides thou hast named doth not accord with the operation \
             thou hast chosen.",
        ),
        ErrorKind::DiceExprInvalidArgument => Some(
            "A flaw dwells in one quality of the operation thou hast invoked. \
             Prithee, examine the exact requirements anew!",
        ),
        ErrorKind::CompoundDiceMultipleRollErrors => Some(
            "More than one of the rolls thou hast named hath yielded an error. \
             I pray thee, examine each in turn!",
        ),
        _ => None,
    }
}

} // verus!
