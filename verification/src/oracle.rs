//! The source of randomness: what is asked of it, how its answer is read,
//! and what takes its place when it fails.
//!
//! The oracle is asked over the network for a number of integers in a
//! range. Asking is left to the caller, who hands back the body of the
//! answer, or nothing if the oracle could not be reached. An answer that
//! cannot be used is replaced by numbers of a local generator, and the
//! result says so.

use crate::error::{DiceError, ErrorKind};
use crate::text::{
    chars_of, digit, digits_of, fields, is_digit, number_of, push_natural, push_text, read_number,
    split, string_of,
};
use rand::Rng;
use vstd::prelude::*;

verus! {

/// A request for `count` integers from `low` to `high`, both included.
#[derive(Clone, Copy, Debug, PartialEq, Eq, Structural)]
pub struct Request {
    /// How many integers are wanted.
    pub count: u16,
    /// The lowest that may come.
    pub low: u16,
    /// The highest that may come.
    pub high: u16,
}

/// Whether `draws` answer `want`: as many as asked for, each in the range.
pub open spec fn meets(draws: Seq<u16>, want: Request) -> bool {
    &&& draws.len() == want.count
    &&& forall|i: int| 0 <= i < draws.len() ==> want.low <= #[trigger] draws[i] <= want.high
}

/// The address at which the oracle answers `want`.
pub open spec fn endpoint_of(want: Request) -> Seq<char> {
    "https://www.random.org/integers/?num="@ + digits_of(want.count as nat) + "&min="@ + digits_of(
        want.low as nat,
    ) + "&max="@ + digits_of(want.high as nat) + "&col=1&base=10&format=plain&rnd=new"@
}

/// The `i`-th line of a text whose pieces between line feeds are `pieces`:
/// the piece, without the carriage return that may precede the line feed.
pub open spec fn line_at(pieces: Seq<Seq<char>>, i: int) -> Seq<char> {
    let piece = pieces[i];
    if i < pieces.len() - 1 && piece.len() > 0 && piece.last() == '\r' {
        piece.drop_last()
    } else {
        piece
    }
}

/// The lines of `s`. A line ends with a line feed, or a carriage return and
/// a line feed; the last line may do without.
pub open spec fn lines_of(s: Seq<char>) -> Seq<Seq<char>> {
    let pieces = fields(s, true);
    let n = if pieces.last().len() == 0 {
        pieces.len() - 1
    } else {
        pieces.len() as int
    };
    Seq::new(n as nat, |i: int| line_at(pieces, i))
}

/// The number that a line of an answer holds: decimal digits, with or
/// without a plus sign before them, that make a number of sixteen bits.
pub open spec fn line_number(line: Seq<char>) -> Option<u16> {
    if line.len() > 0 && line[0] == '+' {
        number_of(line.drop_first())
    } else {
        number_of(line)
    }
}

/// Whether `line` holds a number of the range that `want` names.
pub open spec fn line_fits(line: Seq<char>, want: Request) -> bool {
    match line_number(line) {
        Some(value) => want.low <= value <= want.high,
        None => false,
    }
}

/// What the body of an answer to `want` holds. It must begin with a digit;
/// each of its lines must be a number of the range; and there must be as
/// many as were asked for.
pub open spec fn reply_of(body: Seq<char>, want: Request) -> Result<Seq<u16>, ErrorKind> {
    let lines = lines_of(body);
    if body.len() == 0 || !is_digit(body[0]) {
        Err(ErrorKind::RandomOrgInvalidResponse)
    } else if exists|i: int| 0 <= i < lines.len() && !line_fits(#[trigger] lines[i], want) {
        Err(ErrorKind::RandomOrgOutOfRange)
    } else if lines.len() != want.count {
        Err(ErrorKind::RandomOrgInvalidResponse)
    } else {
        Ok(Seq::new(lines.len(), |i: int| line_number(lines[i]).unwrap()))
    }
}

/// What the oracle has given, from what it sent: the body of its answer,
/// or nothing if it could not be reached.
pub open spec fn received(reply: Option<Seq<char>>, want: Request) -> Result<Seq<u16>, ErrorKind> {
    match reply {
        Some(body) => reply_of(body, want),
        None => Err(ErrorKind::RandomOrgUnreachable),
    }
}

/// What was sent, as a plain value.
pub open spec fn sent(reply: Option<&str>) -> Option<Seq<char>> {
    match reply {
        Some(body) => Some(body@),
        None => None,
    }
}

/// Whether `r` is the reading of an answer that holds `held`.
pub open spec fn read_as(
    r: Result<Vec<u16>, DiceError>,
    held: Result<Seq<u16>, ErrorKind>,
) -> bool {
    match held {
        Ok(values) => r is Ok && r.unwrap()@ == values,
        Err(kind) => r is Err && r.unwrap_err().kind == kind,
    }
}

/// An answer that can be read answers the request.
pub proof fn lemma_reply_meets(body: Seq<char>, want: Request)
    requires
        reply_of(body, want) is Ok,
    ensures
        meets(reply_of(body, want).unwrap(), want),
{
    let lines = lines_of(body);
    let values = reply_of(body, want).unwrap();
    assert forall|i: int| 0 <= i < values.len() implies want.low <= #[trigger] values[i]
        <= want.high by {
        assert(line_fits(lines[i], want));
    }
}

/// The generator of `rand` that belongs to the current thread. It is
/// carried from `rand::rng` to `Rng::random_range`, and nothing is known of
/// what it holds.
#[verifier::external_type_specification]
#[verifier::external_body]
pub struct ExThreadRng(rand::rngs::ThreadRng);

/// Calls `rand::rng`, which hands out the generator of the current thread.
/// Nothing is claimed of it. The call panics where the system has no
/// randomness to seed the generator with.
#[verifier::external_body]
fn local_generator() -> rand::rngs::ThreadRng {
    rand::rng()
}

/// Calls `Rng::random_range` with the range from `low` to `high`, both
/// included. It panics on an empty range, which `requires` leaves out, and
/// returns a number of the range; which one is left open.
#[verifier::external_body]
fn draw(generator: &mut rand::rngs::ThreadRng, low: u16, high: u16) -> (r: u16)
    requires
        low <= high,
    ensures
        low <= r <= high,
{
    generator.random_range(low..=high)
}

/// The address at which the oracle answers `want`.
pub fn endpoint(want: Request) -> (s: String)
    ensures
        s@ == endpoint_of(want),
{
    let mut out: Vec<char> = Vec::new();
    push_text(&mut out, "https://www.random.org/integers/?num=");
    push_natural(&mut out, want.count as u64);
    push_text(&mut out, "&min=");
    push_natural(&mut out, want.low as u64);
    push_text(&mut out, "&max=");
    push_natural(&mut out, want.high as u64);
    push_text(&mut out, "&col=1&base=10&format=plain&rnd=new");
    assert(out@ == endpoint_of(want));
    string_of(&out)
}

/// Reads the body of an answer to `want`. See [`reply_of`].
pub fn parse_reply(body: &str, want: Request) -> (r: Result<Vec<u16>, DiceError>)
    ensures
        read_as(r, reply_of(body@, want)),
{
    let v = chars_of(body);
    if v.len() == 0 || !digit(v[0]) {
        return Err(DiceError::new(ErrorKind::RandomOrgInvalidResponse));
    }
    let spans = split(&v, true);
    let ghost pieces = fields(v@, true);
    let ghost lines = lines_of(v@);
    let last = spans.len() - 1;
    let n = if spans[last].1 == spans[last].0 {
        last
    } else {
        spans.len()
    };
    assert(pieces.last() == v@.subrange(spans[last as int].0 as int, spans[last as int].1 as int));
    assert(lines.len() == n);
    let mut values: Vec<u16> = Vec::new();
    let mut i: usize = 0;
    while i < n
        invariant
            i <= n <= spans.len() == pieces.len(),
            n == lines.len(),
            v@ == body@,
            v@.len() > 0 && is_digit(v@[0]),
            lines == lines_of(v@),
            pieces == fields(v@, true),
            values.len() == i,
            forall|k: int|
                0 <= k < spans.len() ==> {
                    &&& (#[trigger] spans[k]).0 <= spans[k].1 <= v.len()
                    &&& pieces[k] == v@.subrange(spans[k].0 as int, spans[k].1 as int)
                },
            forall|k: int| 0 <= k < i ==> line_fits(#[trigger] lines[k], want),
            forall|k: int| 0 <= k < i ==> line_number(lines[k]) == Some(#[trigger] values[k]),
        decreases n - i,
    {
        let mut from = spans[i].0;
        let mut to = spans[i].1;
        let ghost piece = pieces[i as int];
        assert(piece == v@.subrange(from as int, to as int));
        if i < spans.len() - 1 && to > from && v[to - 1] == '\r' {
            assert(piece.last() == v@[to - 1]);
            to = to - 1;
            assert(piece.drop_last() == v@.subrange(from as int, to as int));
        }
        let ghost line = lines[i as int];
        assert(line == line_at(pieces, i as int));
        assert(line == v@.subrange(from as int, to as int));
        if to > from && v[from] == '+' {
            assert(line[0] == v@[from as int]);
            from = from + 1;
            assert(line.drop_first() == v@.subrange(from as int, to as int));
        }
        match read_number(&v, from, to) {
            Some(value) => {
                if value < want.low || value > want.high {
                    assert(!line_fits(lines[i as int], want));
                    return Err(DiceError::new(ErrorKind::RandomOrgOutOfRange));
                }
                values.push(value);
            },
            None => {
                assert(!line_fits(lines[i as int], want));
                return Err(DiceError::new(ErrorKind::RandomOrgOutOfRange));
            },
        }
        i += 1;
    }
    if values.len() != want.count as usize {
        return Err(DiceError::new(ErrorKind::RandomOrgInvalidResponse));
    }
    assert(values@ == Seq::new(lines.len(), |i: int| line_number(lines[i]).unwrap()));
    Ok(values)
}

/// Reads what the oracle sent for `want`: the body of its answer, or
/// nothing if it could not be reached. See [`received`].
pub fn receive(reply: Option<&str>, want: Request) -> (r: Result<Vec<u16>, DiceError>)
    ensures
        read_as(r, received(sent(reply), want)),
{
    match reply {
        Some(body) => parse_reply(body, want),
        None => Err(DiceError::new(ErrorKind::RandomOrgUnreachable)),
    }
}

/// Numbers of the local generator that answer `want`.
pub fn pseudo_random(want: Request) -> (draws: Vec<u16>)
    requires
        want.low <= want.high,
    ensures
        meets(draws@, want),
{
    let mut generator = local_generator();
    let mut draws: Vec<u16> = Vec::new();
    let mut i: u16 = 0;
    while i < want.count
        invariant
            i <= want.count,
            want.low <= want.high,
            draws.len() == i,
            forall|k: int| 0 <= k < draws.len() ==> want.low <= #[trigger] draws[k] <= want.high,
        decreases want.count - i,
    {
        let value = draw(&mut generator, want.low, want.high);
        draws.push(value);
        i += 1;
    }
    draws
}

/// The numbers that answer `want`, given what the oracle sent: the body of
/// its answer, or nothing if it could not be reached. Where the answer can
/// be read, the numbers are those that it holds, and the flag is set. In
/// every other case they come from the local generator, and the flag is not
/// set.
pub fn settle(reply: Option<&str>, want: Request) -> (r: (Vec<u16>, bool))
    requires
        want.low <= want.high,
    ensures
        meets(r.0@, want),
        r.1 == received(sent(reply), want) is Ok,
        r.1 ==> r.0@ == received(sent(reply), want).unwrap(),
{
    match receive(reply, want) {
        Ok(draws) => {
            proof {
                lemma_reply_meets(reply.unwrap()@, want);
            }
            (draws, true)
        },
        Err(_) => (pseudo_random(want), false),
    }
}

} // verus!
