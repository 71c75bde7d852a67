//! Problem files: objects, the initial state and the goal.

pub mod goal;
pub mod init;
pub mod objects;
pub mod token;

use vstd::prelude::*;
use vstd::string::StringSliceAdditionalSpecFns;
use crate::problem::goal::{closing, copy_goal, goal, parse_closing, parse_goal, Goal, GoalView};
use crate::problem::init::{facts, init, parse_init, Fact, FactView, Init};
use crate::problem::objects::{
    object_views, objects, optional, parse_objects, Object, ObjectView, Objects,
};
use crate::problem::token::{
    lexeme_string, lexeme_text, next_token, quote, quoted, scan, stop, stopped, Kind, Token,
};
use crate::shared::{copy_names, Fail, Span};

verus! {

/// A problem file. A section that the file does not hold is `None`.
#[derive(Debug, PartialEq, Eq)]
pub struct Problem {
    pub name: Option<String>,
    pub domain: Option<String>,
    pub objects: Option<Objects>,
    pub init: Option<Init>,
    pub goal: Option<Goal>,
}

/// What a `Problem` holds, as text.
pub struct ProblemView {
    pub name: Option<Seq<char>>,
    pub domain: Option<Seq<char>>,
    pub objects: Option<Seq<ObjectView>>,
    pub init: Option<Seq<FactView>>,
    pub goal: Option<GoalView>,
}

/// The view of an optional row of objects.
pub open spec fn optional_objects(v: Option<Objects>) -> Option<Seq<ObjectView>> {
    match v {
        Some(found) => Some(object_views(found@)),
        None => None,
    }
}

/// The view of an optional row of facts.
pub open spec fn optional_init(v: Option<Init>) -> Option<Seq<FactView>> {
    match v {
        Some(found) => Some(facts(found@)),
        None => None,
    }
}

/// The view of an optional goal.
pub open spec fn optional_goal(v: Option<Goal>) -> Option<GoalView> {
    match v {
        Some(found) => Some(found@),
        None => None,
    }
}

impl View for Problem {
    type V = ProblemView;

    open spec fn view(&self) -> ProblemView {
        ProblemView {
            name: optional(self.name),
            domain: optional(self.domain),
            objects: optional_objects(self.objects),
            init: optional_init(self.init),
            goal: optional_goal(self.goal),
        }
    }
}

/// Copies an optional string.
pub fn copy_optional(v: &Option<String>) -> (out: Option<String>)
    ensures
        optional(out) == optional(*v),
{
    match v {
        Some(found) => Some(found.clone()),
        None => None,
    }
}

/// Copies a row of objects.
pub fn copy_objects(row: &Objects) -> (out: Objects)
    ensures
        object_views(out@) == object_views(row@),
{
    let mut out: Vec<Object> = Vec::new();
    let mut i: usize = 0;
    while i < row.len()
        invariant
            0 <= i <= row@.len(),
            object_views(out@) == object_views(row@).take(i as int),
        decreases row@.len() - i,
    {
        let ghost before = out@;
        let copied = Object { name: row[i].name.clone(), typename: copy_optional(&row[i].typename) };
        out.push(copied);
        i += 1;
        proof {
            assert(object_views(out@) =~= object_views(before).push(row@[i - 1]@));
            assert(object_views(row@).take(i as int) =~= object_views(row@).take(i - 1).push(
                row@[i - 1]@,
            ));
        }
    }
    proof {
        assert(object_views(row@).take(i as int) =~= object_views(row@));
    }
    out
}

/// Copies a row of facts.
pub fn copy_facts(row: &Init) -> (out: Init)
    ensures
        facts(out@) == facts(row@),
{
    let mut out: Vec<Fact> = Vec::new();
    let mut i: usize = 0;
    while i < row.len()
        invariant
            0 <= i <= row@.len(),
            facts(out@) == facts(row@).take(i as int),
        decreases row@.len() - i,
    {
        let ghost before = out@;
        let copied = Fact {
            predicate: row[i].predicate.clone(),
            objects: copy_names(&row[i].objects),
        };
        out.push(copied);
        i += 1;
        proof {
            assert(facts(out@) =~= facts(before).push(row@[i - 1]@));
            assert(facts(row@).take(i as int) =~= facts(row@).take(i - 1).push(row@[i - 1]@));
        }
    }
    proof {
        assert(facts(row@).take(i as int) =~= facts(row@));
    }
    out
}

impl Clone for Problem {
    fn clone(&self) -> (out: Self)
        ensures
            out@ == self@,
    {
        Problem {
            name: copy_optional(&self.name),
            domain: copy_optional(&self.domain),
            objects: match &self.objects {
                Some(found) => Some(copy_objects(found)),
                None => None,
            },
            init: match &self.init {
                Some(found) => Some(copy_facts(found)),
                None => None,
            },
            goal: match &self.goal {
                Some(found) => Some(copy_goal(found)),
                None => None,
            },
        }
    }
}

/// A problem with no section.
pub open spec fn no_sections() -> ProblemView {
    ProblemView { name: None, domain: None, objects: None, init: None, goal: None }
}

/// A name and the parenthesis that closes its section.
pub open spec fn name(s: Seq<u8>, pos: int) -> Result<(Seq<char>, int), Fail> {
    let l = scan(s, pos);
    match l.kind {
        Kind::Found(Token::Name) => match closing(s, l.span.end as int) {
            Ok(end) => Ok((lexeme_text(s, l), end)),
            Err(f) => Err(f),
        },
        _ => Err(stop(l)),
    }
}

/// The section behind an opening parenthesis: its tag, then its content up
/// to its closing parenthesis. It replaces what `so_far` held of that
/// section. A tag that is none of the five is an error, and so is the end
/// of the input.
pub open spec fn one_section(s: Seq<u8>, pos: int, so_far: ProblemView) -> Result<
    (ProblemView, int),
    Fail,
> {
    let tag = scan(s, pos);
    let next = tag.span.end as int;
    match tag.kind {
        Kind::Found(Token::ProblemName) => match name(s, next) {
            Ok((found, end)) => Ok((ProblemView { name: Some(found), ..so_far }, end)),
            Err(f) => Err(f),
        },
        Kind::Found(Token::DomainName) => match name(s, next) {
            Ok((found, end)) => Ok((ProblemView { domain: Some(found), ..so_far }, end)),
            Err(f) => Err(f),
        },
        Kind::Found(Token::Objects) => match objects(s, next) {
            Ok((found, end)) => Ok((ProblemView { objects: Some(found), ..so_far }, end)),
            Err(f) => Err(f),
        },
        Kind::Found(Token::Init) => match init(s, next) {
            Ok((found, end)) => Ok((ProblemView { init: Some(found), ..so_far }, end)),
            Err(f) => Err(f),
        },
        Kind::Found(Token::Goal) => match goal(s, next) {
            Ok((found, end)) => Ok((ProblemView { goal: Some(found), ..so_far }, end)),
            Err(f) => Err(f),
        },
        _ => Err(stop(tag)),
    }
}

/// The sections from `pos` up to the parenthesis that closes the
/// definition. What follows that parenthesis is not read.
pub open spec fn sections(s: Seq<u8>, pos: int, so_far: ProblemView) -> Result<ProblemView, Fail>
    decreases s.len() - pos,
{
    let l = scan(s, pos);
    match l.kind {
        Kind::End => Err(stop(l)),
        Kind::Malformed => Err(("expected opening parenthesis"@, l.span)),
        Kind::Found(Token::RParen) => Ok(so_far),
        Kind::Found(Token::LParen) => match one_section(s, l.span.end as int, so_far) {
            Ok((found, end)) => if pos < end <= s.len() {
                sections(s, end, found)
            } else {
                Err(stop(l))
            },
            Err(f) => Err(f),
        },
        Kind::Found(_) => Err((quoted("expected opening parenthesis, found '"@, s, l), l.span)),
    }
}

/// A whole problem file: `(define`, then the sections.
pub open spec fn problem(s: Seq<u8>) -> Result<ProblemView, Fail> {
    let first = scan(s, 0);
    if first.kind != Kind::Found(Token::LParen) {
        Err(("missing opening parenthesis"@, first.span))
    } else {
        let second = scan(s, first.span.end as int);
        if second.kind != Kind::Found(Token::Definition) {
            Err(("missing opening define"@, second.span))
        } else {
            sections(s, second.span.end as int, no_sections())
        }
    }
}

/// Parses a name and the parenthesis that closes its section.
pub fn parse_name(input: &[u8], pos: usize) -> (out: Result<(String, usize), (String, Span)>)
    requires
        pos <= input@.len(),
    ensures
        out matches Ok(r) ==> name(input@, pos as int) == Ok::<_, Fail>((r.0@, r.1 as int)) && pos
            < r.1 <= input@.len(),
        out matches Err(e) ==> name(input@, pos as int) == Err::<(Seq<char>, int), _>((e.0@, e.1)),
{
    let l = next_token(input, pos);
    match l.kind {
        Kind::Found(Token::Name) => {
            let found = lexeme_string(input, l);
            match parse_closing(input, l.span.end) {
                Ok(end) => Ok((found, end)),
                Err(e) => Err(e),
            }
        },
        _ => Err(stopped(l)),
    }
}

/// Parses the section behind an opening parenthesis.
pub fn parse_section(input: &[u8], pos: usize, so_far: Problem) -> (out: Result<
    (Problem, usize),
    (String, Span),
>)
    requires
        pos <= input@.len(),
    ensures
        out matches Ok(r) ==> one_section(input@, pos as int, so_far@) == Ok::<_, Fail>(
            (r.0@, r.1 as int),
        ) && pos < r.1 <= input@.len(),
        out matches Err(e) ==> one_section(input@, pos as int, so_far@) == Err::<
            (ProblemView, int),
            _,
        >((e.0@, e.1)),
{
    let mut current = so_far;
    let tag = next_token(input, pos);
    let next = tag.span.end;
    match tag.kind {
        Kind::Found(Token::ProblemName) => {
            let (found, end) = parse_name(input, next)?;
            current.name = Some(found);
            Ok((current, end))
        },
        Kind::Found(Token::DomainName) => {
            let (found, end) = parse_name(input, next)?;
            current.domain = Some(found);
            Ok((current, end))
        },
        Kind::Found(Token::Objects) => {
            let (found, end) = parse_objects(input, next)?;
            current.objects = Some(found);
            Ok((current, end))
        },
        Kind::Found(Token::Init) => {
            let (found, end) = parse_init(input, next)?;
            current.init = Some(found);
            Ok((current, end))
        },
        Kind::Found(Token::Goal) => {
            let (found, end) = parse_goal(input, next)?;
            current.goal = Some(found);
            Ok((current, end))
        },
        _ => Err(stopped(tag)),
    }
}

/// Parses a whole problem file.
pub fn parse_problem(input: &[u8]) -> (out: Result<Problem, (String, Span)>)
    ensures
        out matches Ok(p) ==> problem(input@) == Ok::<_, Fail>(p@),
        out matches Err(e) ==> problem(input@) == Err::<ProblemView, _>((e.0@, e.1)),
{
    let first = next_token(input, 0);
    match first.kind {
        Kind::Found(Token::LParen) => {},
        _ => {
            return Err(("missing opening parenthesis".to_owned(), first.span));
        },
    }
    let second = next_token(input, first.span.end);
    match second.kind {
        Kind::Found(Token::Definition) => {},
        _ => {
            return Err(("missing opening define".to_owned(), second.span));
        },
    }
    let mut current = Problem { name: None, domain: None, objects: None, init: None, goal: None };
    let mut cur: usize = second.span.end;
    loop
        invariant
            cur <= input@.len(),
            problem(input@) == sections(input@, cur as int, current@),
        decreases input@.len() - cur,
    {
        let l = next_token(input, cur);
        match l.kind {
            Kind::End => {
                return Err(stopped(l));
            },
            Kind::Malformed => {
                return Err(("expected opening parenthesis".to_owned(), l.span));
            },
            Kind::Found(Token::RParen) => {
                return Ok(current);
            },
            Kind::Found(Token::LParen) => {
                match parse_section(input, l.span.end, current) {
                    Ok((found, end)) => {
                        current = found;
                        cur = end;
                    },
                    Err(e) => {
                        return Err(e);
                    },
                }
            },
            Kind::Found(_) => {
                return Err((quote("expected opening parenthesis, found '", input, l), l.span));
            },
        }
    }
}

/// Parses a problem file, or says where and why it is none.
pub fn try_parse(input: &str) -> (out: Result<Problem, (String, Span)>)
    ensures
        out matches Ok(p) ==> problem(input.spec_bytes()) == Ok::<_, Fail>(p@),
        out matches Err(e) ==> problem(input.spec_bytes()) == Err::<ProblemView, _>((e.0@, e.1)),
{
    parse_problem(input.as_bytes())
}


/// Parses a problem file that is known to be one.
pub fn parse(input: &str) -> (out: Problem)
    requires
        problem(input.spec_bytes()) is Ok,
    ensures
        problem(input.spec_bytes()) == Ok::<_, Fail>(out@),
{
    match try_parse(input) {
        Ok(found) => found,
        Err(_) => vstd::pervasive::unreached(),
    }
}

} // verus!
