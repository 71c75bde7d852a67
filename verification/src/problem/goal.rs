//! The goal: one nested expression over ground facts.

use vstd::prelude::*;
use crate::problem::token::{
    arguments, lexeme_string, lexeme_text, next_token, parse_arguments, scan, stop, stopped, Kind,
    Token,
};
use crate::shared::{copy_names, prepend, strings, Fail, Span};

verus! {

/// A nested expression over ground facts.
#[derive(Debug, PartialEq, Eq)]
pub enum Goal {
    Fact { predicate: String, objects: Vec<String> },
    Not(Box<Goal>),
    And(Vec<Goal>),
    Or(Vec<Goal>),
}

/// What a `Goal` holds, as text.
pub enum GoalView {
    Fact { predicate: Seq<char>, objects: Seq<Seq<char>> },
    Not(Box<GoalView>),
    And(Seq<GoalView>),
    Or(Seq<GoalView>),
}

impl Goal {
    /// The goal as text, children in order.
    pub open spec fn model(self) -> GoalView
        decreases self,
    {
        match self {
            Goal::Fact { predicate, objects } => GoalView::Fact {
                predicate: predicate@,
                objects: strings(objects@),
            },
            Goal::Not(child) => GoalView::Not(Box::new(child.model())),
            Goal::And(row) => GoalView::And(
                Seq::new(
                    row@.len(),
                    |i: int|
                        if 0 <= i < row@.len() {
                            row@[i].model()
                        } else {
                            arbitrary()
                        },
                ),
            ),
            Goal::Or(row) => GoalView::Or(
                Seq::new(
                    row@.len(),
                    |i: int|
                        if 0 <= i < row@.len() {
                            row@[i].model()
                        } else {
                            arbitrary()
                        },
                ),
            ),
        }
    }
}

impl View for Goal {
    type V = GoalView;

    open spec fn view(&self) -> GoalView {
        self.model()
    }
}

/// The views of a sequence of goals.
pub open spec fn goals(v: Seq<Goal>) -> Seq<GoalView> {
    Seq::new(v.len(), |i: int| v[i]@)
}

/// The view of a row node is the node of the views of its row.
pub proof fn lemma_goal_rows(row: Vec<Goal>)
    ensures
        Goal::And(row)@ == GoalView::And(goals(row@)),
        Goal::Or(row)@ == GoalView::Or(goals(row@)),
{
    assert(Goal::And(row).model()->And_0 =~= goals(row@));
    assert(Goal::Or(row).model()->Or_0 =~= goals(row@));
}

/// Copies a goal, children and all.
pub fn copy_goal(goal: &Goal) -> (out: Goal)
    ensures
        out@ == goal@,
    decreases goal,
{
    match goal {
        Goal::Fact { predicate, objects } => Goal::Fact {
            predicate: predicate.clone(),
            objects: copy_names(objects),
        },
        Goal::Not(child) => Goal::Not(Box::new(copy_goal(child))),
        Goal::And(row) => {
            let copied = copy_goal_row(row);
            proof {
                lemma_goal_rows(copied);
                lemma_goal_rows(*row);
            }
            Goal::And(copied)
        },
        Goal::Or(row) => {
            let copied = copy_goal_row(row);
            proof {
                lemma_goal_rows(copied);
                lemma_goal_rows(*row);
            }
            Goal::Or(copied)
        },
    }
}

/// Copies a row of goals.
pub fn copy_goal_row(row: &Vec<Goal>) -> (out: Vec<Goal>)
    ensures
        goals(out@) == goals(row@),
    decreases row,
{
    let mut out: Vec<Goal> = Vec::new();
    let mut i: usize = 0;
    while i < row.len()
        invariant
            0 <= i <= row@.len(),
            goals(out@) == goals(row@).take(i as int),
        decreases row@.len() - i,
    {
        let ghost before = out@;
        let copied = copy_goal(&row[i]);
        out.push(copied);
        i += 1;
        proof {
            assert(goals(out@) =~= goals(before).push(row@[i - 1]@));
            assert(goals(row@).take(i as int) =~= goals(row@).take(i - 1).push(row@[i - 1]@));
        }
    }
    proof {
        assert(goals(row@).take(i as int) =~= goals(row@));
    }
    out
}

impl Clone for Goal {
    fn clone(&self) -> (out: Self)
        ensures
            out@ == self@,
    {
        copy_goal(self)
    }
}

/// The closing parenthesis that must come next.
pub open spec fn closing(s: Seq<u8>, pos: int) -> Result<int, Fail> {
    let l = scan(s, pos);
    if l.kind == Kind::Found(Token::RParen) {
        Ok(l.span.end as int)
    } else {
        Err(stop(l))
    }
}

/// The opening parenthesis that must come next.
pub open spec fn opening(s: Seq<u8>, pos: int) -> Result<int, Fail> {
    let l = scan(s, pos);
    if l.kind == Kind::Found(Token::LParen) {
        Ok(l.span.end as int)
    } else {
        Err(stop(l))
    }
}

/// One expression behind its opening parenthesis, up to its closing one: a
/// fact, `not` with one child, or `and` or `or` with any number of children.
pub open spec fn goal_expression(s: Seq<u8>, pos: int) -> Result<(GoalView, int), Fail>
    decreases s.len() - pos,
{
    let l = scan(s, pos);
    let next = l.span.end as int;
    if !(pos < next <= s.len()) {
        Err(stop(l))
    } else {
        match l.kind {
            Kind::Found(Token::Name) => match arguments(s, next) {
                Ok((objects, end)) => Ok(
                    (GoalView::Fact { predicate: lexeme_text(s, l), objects }, end),
                ),
                Err(f) => Err(f),
            },
            Kind::Found(Token::Not) => match opening(s, next) {
                Ok(inner) => if next < inner <= s.len() {
                    match goal_expression(s, inner) {
                        Ok((child, end)) => match closing(s, end) {
                            Ok(stop) => Ok((GoalView::Not(Box::new(child)), stop)),
                            Err(f) => Err(f),
                        },
                        Err(f) => Err(f),
                    }
                } else {
                    Err(stop(l))
                },
                Err(f) => Err(f),
            },
            Kind::Found(Token::And) => match goal_row(s, next) {
                Ok((row, end)) => Ok((GoalView::And(row), end)),
                Err(f) => Err(f),
            },
            Kind::Found(Token::Or) => match goal_row(s, next) {
                Ok((row, end)) => Ok((GoalView::Or(row), end)),
                Err(f) => Err(f),
            },
            _ => Err(stop(l)),
        }
    }
}

/// The expressions up to the closing parenthesis, which is consumed.
pub open spec fn goal_row(s: Seq<u8>, pos: int) -> Result<(Seq<GoalView>, int), Fail>
    decreases s.len() - pos,
{
    let l = scan(s, pos);
    let next = l.span.end as int;
    match l.kind {
        Kind::Found(Token::RParen) => Ok((Seq::empty(), next)),
        Kind::Found(Token::LParen) => if pos < next <= s.len() {
            match goal_expression(s, next) {
                Ok((first, end)) => if next < end <= s.len() {
                    prepend(seq![first], goal_row(s, end))
                } else {
                    Err(stop(l))
                },
                Err(f) => Err(f),
            }
        } else {
            Err(stop(l))
        },
        _ => Err(stop(l)),
    }
}

/// The goal section behind its tag: one parenthesized expression, then the
/// parenthesis that closes the section.
pub open spec fn goal(s: Seq<u8>, pos: int) -> Result<(GoalView, int), Fail> {
    match opening(s, pos) {
        Ok(inner) => match goal_expression(s, inner) {
            Ok((found, end)) => match closing(s, end) {
                Ok(stop) => Ok((found, stop)),
                Err(f) => Err(f),
            },
            Err(f) => Err(f),
        },
        Err(f) => Err(f),
    }
}

/// Reads the closing parenthesis that must come next.
pub fn parse_closing(input: &[u8], pos: usize) -> (out: Result<usize, (String, Span)>)
    requires
        pos <= input@.len(),
    ensures
        out matches Ok(end) ==> closing(input@, pos as int) == Ok::<int, Fail>(end as int) && pos
            < end <= input@.len(),
        out matches Err(e) ==> closing(input@, pos as int) == Err::<int, Fail>((e.0@, e.1)),
{
    let l = next_token(input, pos);
    match l.kind {
        Kind::Found(Token::RParen) => Ok(l.span.end),
        _ => Err(stopped(l)),
    }
}

/// Reads the opening parenthesis that must come next.
pub fn parse_opening(input: &[u8], pos: usize) -> (out: Result<usize, (String, Span)>)
    requires
        pos <= input@.len(),
    ensures
        out matches Ok(end) ==> opening(input@, pos as int) == Ok::<int, Fail>(end as int) && pos
            < end <= input@.len(),
        out matches Err(e) ==> opening(input@, pos as int) == Err::<int, Fail>((e.0@, e.1)),
{
    let l = next_token(input, pos);
    match l.kind {
        Kind::Found(Token::LParen) => Ok(l.span.end),
        _ => Err(stopped(l)),
    }
}

/// Parses one expression behind its opening parenthesis.
pub fn parse_expression(input: &[u8], pos: usize) -> (out: Result<(Goal, usize), (String, Span)>)
    requires
        pos <= input@.len(),
    ensures
        out matches Ok(r) ==> goal_expression(input@, pos as int) == Ok::<_, Fail>(
            (r.0@, r.1 as int),
        ) && pos < r.1 <= input@.len(),
        out matches Err(e) ==> goal_expression(input@, pos as int) == Err::<(GoalView, int), _>(
            (e.0@, e.1),
        ),
    decreases input@.len() - pos, 0int,
{
    let l = next_token(input, pos);
    let next = l.span.end;
    match l.kind {
        Kind::Found(Token::Name) => {
            let predicate = lexeme_string(input, l);
            match parse_arguments(input, next) {
                Ok((objects, end)) => Ok((Goal::Fact { predicate, objects }, end)),
                Err(e) => Err(e),
            }
        },
        Kind::Found(Token::Not) => {
            let inner = parse_opening(input, next)?;
            let (child, end) = parse_expression(input, inner)?;
            let stop = parse_closing(input, end)?;
            Ok((Goal::Not(Box::new(child)), stop))
        },
        Kind::Found(Token::And) => {
            let (row, end) = parse_row(input, next)?;
            proof {
                lemma_goal_rows(row);
            }
            Ok((Goal::And(row), end))
        },
        Kind::Found(Token::Or) => {
            let (row, end) = parse_row(input, next)?;
            proof {
                lemma_goal_rows(row);
            }
            Ok((Goal::Or(row), end))
        },
        _ => Err(stopped(l)),
    }
}

/// Parses the expressions up to the closing parenthesis.
pub fn parse_row(input: &[u8], pos: usize) -> (out: Result<(Vec<Goal>, usize), (String, Span)>)
    requires
        pos <= input@.len(),
    ensures
        out matches Ok(r) ==> goal_row(input@, pos as int) == Ok::<_, Fail>(
            (goals(r.0@), r.1 as int),
        ) && pos < r.1 <= input@.len(),
        out matches Err(e) ==> goal_row(input@, pos as int) == Err::<(Seq<GoalView>, int), _>(
            (e.0@, e.1),
        ),
    decreases input@.len() - pos, 1int,
{
    let mut found: Vec<Goal> = Vec::new();
    let mut cur: usize = pos;
    loop
        invariant
            pos <= cur <= input@.len(),
            goal_row(input@, pos as int) == prepend(goals(found@), goal_row(input@, cur as int)),
        decreases input@.len() - cur,
    {
        let l = next_token(input, cur);
        match l.kind {
            Kind::Found(Token::RParen) => {
                proof {
                    assert(goals(found@) + Seq::<GoalView>::empty() =~= goals(found@));
                }
                return Ok((found, l.span.end));
            },
            Kind::Found(Token::LParen) => {
                match parse_expression(input, l.span.end) {
                    Ok((first, end)) => {
                        proof {
                            if let Ok((more, stop)) = goal_row(input@, end as int) {
                                assert(goals(found@.push(first)) + more =~= goals(found@) + (seq![
                                    first@,
                                ] + more));
                            }
                        }
                        found.push(first);
                        cur = end;
                    },
                    Err(e) => {
                        return Err(e);
                    },
                }
            },
            _ => {
                return Err(stopped(l));
            },
        }
    }
}

/// Parses the goal section behind its tag.
pub fn parse_goal(input: &[u8], pos: usize) -> (out: Result<(Goal, usize), (String, Span)>)
    requires
        pos <= input@.len(),
    ensures
        out matches Ok(r) ==> goal(input@, pos as int) == Ok::<_, Fail>((r.0@, r.1 as int)) && pos
            < r.1 <= input@.len(),
        out matches Err(e) ==> goal(input@, pos as int) == Err::<(GoalView, int), _>((e.0@, e.1)),
{
    let inner = parse_opening(input, pos)?;
    let (found, end) = parse_expression(input, inner)?;
    let stop = parse_closing(input, end)?;
    Ok((found, stop))
}

} // verus!
