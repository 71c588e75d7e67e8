//! The operations that can follow the sides of a term, and the words that
//! name them.

use vstd::prelude::*;

verus! {

/// What is done with the dice of a term once they are rolled.
#[derive(PartialEq, Eq, Clone, Copy, Debug, Hash, Structural)]
pub enum DieKind {
    /// `NdS`: the values as they fall.
    Regular,
    /// `NdSdK`: without the `K` lowest.
    Drop,
    /// `NdSkK`: the `K` highest only.
    Keep,
    /// `NdSrT`: no value below `T`.
    Reroll,
    /// `NdSrkT`: a value below `T` is rolled once more, and the new one stays.
    RerollOnceAndKeep,
    /// `NdSrcT`: a value below `T` is rolled once more, and the higher one stays.
    RerollOnceAndChoose,
    /// `NdSsT`: the values that reach `T` are counted.
    Success,
    /// `NdSeD`: a die that shows its highest face brings one more die, `D` times at most.
    Explode,
    /// `NdSesT`, `NdSeDsT`: exploding dice, of which those that reach `T` are counted.
    ExplodingSuccess,
    /// `NdSoD`: a die that shows its highest face is rolled again and added up.
    Open,
    /// `NdSdhK`: without the `K` highest.
    DropHigh,
    /// `NdSklK`: the `K` lowest only.
    KeepLow,
    /// `NdSuB`: no value above `B`.
    UpperBound,
    /// `NdSlB`: no value below `B`.
    LowerBound,
    /// `NdSaMuB`: `M` more, but no value above `B`.
    AddUpperBound,
    /// `NdSaMlB`: `M` more, and no value below `B`.
    AddLowerBound,
    /// `NdSsMuB`: `M` less, and no value above `B`.
    SubtractUpperBound,
    /// `NdSsMlB`: `M` less, but no value below `B`.
    SubtractLowerBound,
    /// `NdSoelLhH`: a value of `H` or more opens upward, one of `L` or less downward.
    OpenEnded,
    /// `NdSoeL`: open ended, with `H` as far from the top as `L` from the bottom.
    OpenEndedImplicit,
}

/// A word of letters that is part of the name of an operation.
#[derive(PartialEq, Eq, Clone, Copy, Debug, Structural)]
pub enum Word {
    D,
    K,
    R,
    Rk,
    Rc,
    S,
    E,
    Es,
    O,
    Dh,
    Kl,
    U,
    L,
    A,
    H,
    Oe,
    Oel,
}

/// The word that `w` spells, if it is one.
pub open spec fn word_of(w: Seq<char>) -> Option<Word> {
    if w == seq!['d'] {
        Some(Word::D)
    } else if w == seq!['k'] {
        Some(Word::K)
    } else if w == seq!['r'] {
        Some(Word::R)
    } else if w == seq!['r', 'k'] {
        Some(Word::Rk)
    } else if w == seq!['r', 'c'] {
        Some(Word::Rc)
    } else if w == seq!['s'] {
        Some(Word::S)
    } else if w == seq!['e'] {
        Some(Word::E)
    } else if w == seq!['e', 's'] {
        Some(Word::Es)
    } else if w == seq!['o'] {
        Some(Word::O)
    } else if w == seq!['d', 'h'] {
        Some(Word::Dh)
    } else if w == seq!['k', 'l'] {
        Some(Word::Kl)
    } else if w == seq!['u'] {
        Some(Word::U)
    } else if w == seq!['l'] {
        Some(Word::L)
    } else if w == seq!['a'] {
        Some(Word::A)
    } else if w == seq!['h'] {
        Some(Word::H)
    } else if w == seq!['o', 'e'] {
        Some(Word::Oe)
    } else if w == seq!['o', 'e', 'l'] {
        Some(Word::Oel)
    } else {
        None
    }
}

/// The operation that one word names.
pub open spec fn kind_of_one(a: Word) -> Option<DieKind> {
    match a {
        Word::D => Some(DieKind::Drop),
        Word::K => Some(DieKind::Keep),
        Word::R => Some(DieKind::Reroll),
        Word::Rk => Some(DieKind::RerollOnceAndKeep),
        Word::Rc => Some(DieKind::RerollOnceAndChoose),
        Word::S => Some(DieKind::Success),
        Word::E => Some(DieKind::Explode),
        Word::Es => Some(DieKind::ExplodingSuccess),
        Word::O => Some(DieKind::Open),
        Word::Dh => Some(DieKind::DropHigh),
        Word::Kl => Some(DieKind::KeepLow),
        Word::U => Some(DieKind::UpperBound),
        Word::L => Some(DieKind::LowerBound),
        Word::Oe => Some(DieKind::OpenEndedImplicit),
        _ => None,
    }
}

/// The operation that two words name, each followed by a number.
pub open spec fn kind_of_two(a: Word, b: Word) -> Option<DieKind> {
    match (a, b) {
        (Word::E, Word::S) => Some(DieKind::ExplodingSuccess),
        (Word::A, Word::U) => Some(DieKind::AddUpperBound),
        (Word::A, Word::L) => Some(DieKind::AddLowerBound),
        (Word::S, Word::U) => Some(DieKind::SubtractUpperBound),
        (Word::S, Word::L) => Some(DieKind::SubtractLowerBound),
        (Word::Oel, Word::H) => Some(DieKind::OpenEnded),
        _ => None,
    }
}

/// The operation that the words `ops` name, in the order in which they stand
/// in a term: no word for plain dice, one or two for the others.
pub open spec fn kind_of(ops: Seq<Seq<char>>) -> Option<DieKind> {
    if ops.len() == 0 {
        Some(DieKind::Regular)
    } else if ops.len() == 1 {
        match word_of(ops[0]) {
            Some(a) => kind_of_one(a),
            None => None,
        }
    } else if ops.len() == 2 {
        match (word_of(ops[0]), word_of(ops[1])) {
            (Some(a), Some(b)) => kind_of_two(a, b),
            _ => None,
        }
    } else {
        None
    }
}

/// How many arguments an operation takes.
pub open spec fn arity(kind: DieKind) -> nat {
    match kind {
        DieKind::Regular => 0,
        DieKind::ExplodingSuccess
        | DieKind::AddUpperBound
        | DieKind::AddLowerBound
        | DieKind::SubtractUpperBound
        | DieKind::SubtractLowerBound
        | DieKind::OpenEnded => 2,
        _ => 1,
    }
}

/// The arguments of an operation once those that may be left out are filled
/// in: dice explode and open without limit, written as the largest number,
/// unless a limit is given.
pub open spec fn backfilled(kind: DieKind, given: Seq<u16>) -> Seq<u16> {
    match kind {
        DieKind::Explode | DieKind::Open => if given.len() == 0 {
            seq![u16::MAX]
        } else {
            given
        },
        DieKind::ExplodingSuccess => if given.len() == 1 {
            seq![u16::MAX, given[0]]
        } else {
            given
        },
        _ => given,
    }
}

impl DieKind {
    /// How many arguments this operation takes.
    pub fn arity(&self) -> (n: usize)
        ensures
            n == arity(*self),
    {
        match self {
            DieKind::Regular => 0,
            DieKind::ExplodingSuccess
            | DieKind::AddUpperBound
            | DieKind::AddLowerBound
            | DieKind::SubtractUpperBound
            | DieKind::SubtractLowerBound
            | DieKind::OpenEnded => 2,
            _ => 1,
        }
    }

    /// The operation that one word names.
    pub fn of_one(a: Word) -> (k: Option<DieKind>)
        ensures
            k == kind_of_one(a),
    {
        match a {
            Word::D => Some(DieKind::Drop),
            Word::K => Some(DieKind::Keep),
            Word::R => Some(DieKind::Reroll),
            Word::Rk => Some(DieKind::RerollOnceAndKeep),
            Word::Rc => Some(DieKind::RerollOnceAndChoose),
            Word::S => Some(DieKind::Success),
            Word::E => Some(DieKind::Explode),
            Word::Es => Some(DieKind::ExplodingSuccess),
            Word::O => Some(DieKind::Open),
            Word::Dh => Some(DieKind::DropHigh),
            Word::Kl => Some(DieKind::KeepLow),
            Word::U => Some(DieKind::UpperBound),
            Word::L => Some(DieKind::LowerBound),
            Word::Oe => Some(DieKind::OpenEndedImplicit),
            _ => None,
        }
    }

    /// The operation that two words name.
    pub fn of_two(a: Word, b: Word) -> (k: Option<DieKind>)
        ensures
            k == kind_of_two(a, b),
    {
        match (a, b) {
            (Word::E, Word::S) => Some(DieKind::ExplodingSuccess),
            (Word::A, Word::U) => Some(DieKind::AddUpperBound),
            (Word::A, Word::L) => Some(DieKind::AddLowerBound),
            (Word::S, Word::U) => Some(DieKind::SubtractUpperBound),
            (Word::S, Word::L) => Some(DieKind::SubtractLowerBound),
            (Word::Oel, Word::H) => Some(DieKind::OpenEnded),
            _ => None,
        }
    }
}

/// The length and the letters of each word.
proof fn lemma_spellings()
    ensures
        seq!['d'].len() == 1,
        seq!['d'][0] == 'd',
        seq!['k'].len() == 1,
        seq!['k'][0] == 'k',
        seq!['r'].len() == 1,
        seq!['r'][0] == 'r',
        seq!['r', 'k'].len() == 2,
        seq!['r', 'k'][0] == 'r',
        seq!['r', 'k'][1] == 'k',
        seq!['r', 'c'].len() == 2,
        seq!['r', 'c'][0] == 'r',
        seq!['r', 'c'][1] == 'c',
        seq!['s'].len() == 1,
        seq!['s'][0] == 's',
        seq!['e'].len() == 1,
        seq!['e'][0] == 'e',
        seq!['e', 's'].len() == 2,
        seq!['e', 's'][0] == 'e',
        seq!['e', 's'][1] == 's',
        seq!['o'].len() == 1,
        seq!['o'][0] == 'o',
        seq!['d', 'h'].len() == 2,
        seq!['d', 'h'][0] == 'd',
        seq!['d', 'h'][1] == 'h',
        seq!['k', 'l'].len() == 2,
        seq!['k', 'l'][0] == 'k',
        seq!['k', 'l'][1] == 'l',
        seq!['u'].len() == 1,
        seq!['u'][0] == 'u',
        seq!['l'].len() == 1,
        seq!['l'][0] == 'l',
        seq!['a'].len() == 1,
        seq!['a'][0] == 'a',
        seq!['h'].len() == 1,
        seq!['h'][0] == 'h',
        seq!['o', 'e'].len() == 2,
        seq!['o', 'e'][0] == 'o',
        seq!['o', 'e'][1] == 'e',
        seq!['o', 'e', 'l'].len() == 3,
        seq!['o', 'e', 'l'][0] == 'o',
        seq!['o', 'e', 'l'][1] == 'e',
        seq!['o', 'e', 'l'][2] == 'l',
{
}

impl Word {
    /// Reads the letters `v[from..to]` as a word.
    pub fn read(v: &Vec<char>, from: usize, to: usize) -> (w: Option<Word>)
        requires
            from <= to <= v.len(),
        ensures
            w == word_of(v@.subrange(from as int, to as int)),
    {
        let ghost s = v@.subrange(from as int, to as int);
        let n = to - from;
        proof {
            lemma_spellings();
        }
        if n == 1 {
            let a = v[from];
            assert(s =~= seq![a]);
            match a {
                'd' => Some(Word::D),
                'k' => Some(Word::K),
                'r' => Some(Word::R),
                's' => Some(Word::S),
                'e' => Some(Word::E),
                'o' => Some(Word::O),
                'u' => Some(Word::U),
                'l' => Some(Word::L),
                'a' => Some(Word::A),
                'h' => Some(Word::H),
                _ => {
                    assert(s[0] == a);
                    None
                },
            }
        } else if n == 2 {
            let a = v[from];
            let b = v[from + 1];
            assert(s =~= seq![a, b]);
            match (a, b) {
                ('r', 'k') => Some(Word::Rk),
                ('r', 'c') => Some(Word::Rc),
                ('e', 's') => Some(Word::Es),
                ('d', 'h') => Some(Word::Dh),
                ('k', 'l') => Some(Word::Kl),
                ('o', 'e') => Some(Word::Oe),
                _ => {
                    assert(s[0] == a && s[1] == b);
                    None
                },
            }
        } else if n == 3 {
            let a = v[from];
            let b = v[from + 1];
            let c = v[from + 2];
            assert(s =~= seq![a, b, c]);
            if a == 'o' && b == 'e' && c == 'l' {
                Some(Word::Oel)
            } else {
                assert(s[0] == a && s[1] == b && s[2] == c);
                None
            }
        } else {
            assert(s.len() == n);
            None
        }
    }
}

} // verus!
