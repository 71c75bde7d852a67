//! The initial state: a flat row of ground facts.

use vstd::prelude::*;
use crate::problem::token::{call, next_token, parse_call, scan, stop, stopped, Kind, Token};
use crate::shared::{prepend, strings, Fail, Span};

verus! {

/// A predicate applied to objects.
#[derive(Debug, PartialEq, Eq, Clone)]
pub struct Fact {
    pub predicate: String,
    pub objects: Vec<String>,
}

/// The facts of an initial state.
pub type Init = Vec<Fact>;

/// What a `Fact` holds, as text.
pub struct FactView {
    pub predicate: Seq<char>,
    pub objects: Seq<Seq<char>>,
}

impl View for Fact {
    type V = FactView;

    open spec fn view(&self) -> FactView {
        FactView { predicate: self.predicate@, objects: strings(self.objects@) }
    }
}

/// The views of a sequence of facts.
pub open spec fn facts(v: Seq<Fact>) -> Seq<FactView> {
    Seq::new(v.len(), |i: int| v[i]@)
}

/// One fact behind its opening parenthesis, up to its closing one.
pub open spec fn fact(s: Seq<u8>, pos: int) -> Result<(FactView, int), Fail> {
    match call(s, pos) {
        Ok((found, end)) => Ok((FactView { predicate: found.0, objects: found.1 }, end)),
        Err(f) => Err(f),
    }
}

/// The facts up to the parenthesis that closes the section, which is
/// consumed. Nothing but facts may stand there.
pub open spec fn init(s: Seq<u8>, pos: int) -> Result<(Seq<FactView>, int), Fail>
    decreases s.len() - pos,
{
    let l = scan(s, pos);
    match l.kind {
        Kind::Found(Token::LParen) => match fact(s, l.span.end as int) {
            Ok((first, end)) => if pos < end <= s.len() {
                prepend(seq![first], init(s, end))
            } else {
                Err(stop(l))
            },
            Err(f) => Err(f),
        },
        Kind::Found(Token::RParen) => Ok((Seq::empty(), l.span.end as int)),
        _ => Err(stop(l)),
    }
}

/// Parses one fact behind its opening parenthesis.
pub fn parse_fact(input: &[u8], pos: usize) -> (out: Result<(Fact, usize), (String, Span)>)
    requires
        pos <= input@.len(),
    ensures
        out matches Ok(r) ==> fact(input@, pos as int) == Ok::<_, Fail>((r.0@, r.1 as int)) && pos
            < r.1 <= input@.len(),
        out matches Err(e) ==> fact(input@, pos as int) == Err::<(FactView, int), _>((e.0@, e.1)),
{
    match parse_call(input, pos) {
        Ok((found, end)) => Ok((Fact { predicate: found.0, objects: found.1 }, end)),
        Err(e) => Err(e),
    }
}

/// Parses the facts up to the parenthesis that closes the section.
pub fn parse_init(input: &[u8], pos: usize) -> (out: Result<(Init, usize), (String, Span)>)
    requires
        pos <= input@.len(),
    ensures
        out matches Ok(r) ==> init(input@, pos as int) == Ok::<_, Fail>(
            (facts(r.0@), r.1 as int),
        ) && pos < r.1 <= input@.len(),
        out matches Err(e) ==> init(input@, pos as int) == Err::<(Seq<FactView>, int), _>(
            (e.0@, e.1),
        ),
{
    let mut found: Vec<Fact> = Vec::new();
    let mut cur: usize = pos;
    loop
        invariant
            pos <= cur <= input@.len(),
            init(input@, pos as int) == prepend(facts(found@), init(input@, cur as int)),
        decreases input@.len() - cur,
    {
        let l = next_token(input, cur);
        match l.kind {
            Kind::Found(Token::LParen) => {
                match parse_fact(input, l.span.end) {
                    Ok((first, end)) => {
                        proof {
                            if let Ok((more, stop)) = init(input@, end as int) {
                                assert(facts(found@.push(first)) + more =~= facts(found@) + (seq![
                                    first@,
                                ] + more));
                            }
                        }
                        found.push(first);
                        cur = end;
                    },
                    Err(e) => {
                        return Err(e);
                    },
                }
            },
            Kind::Found(Token::RParen) => {
                proof {
                    assert(facts(found@) + Seq::<FactView>::empty() =~= facts(found@));
                }
                return Ok((found, l.span.end));
            },
            _ => {
                return Err(stopped(l));
            },
        }
    }
}

} // verus!
