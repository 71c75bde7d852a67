//! Preconditions: nested expressions in which every operator takes at least
//! one child and variables are recorded without their sigil.

use vstd::prelude::*;
use vstd::string::StringSliceAdditionalSpecFns;
use crate::shared::{
    close_paren, fail_at, is_name_start_byte, make_text, multispace0, named, names, open_paren,
    parse_close, parse_open, prepend, remainder, same_word, scan_name, skip_multispace, strings,
    text, unexpected, word_is, Fail, Span,
};
use crate::term::{Term, TermView};

verus! {

/// A nested logical expression in which `=`, `and` and `or` each take one
/// or more children.
#[derive(Debug, PartialEq)]
pub enum Precondition {
    Predicate(Term),
    Equal(Preconditions),
    And(Preconditions),
    Or(Preconditions),
    Not(Box<Precondition>),
}

/// A row of preconditions.
pub type Preconditions = Vec<Precondition>;

/// What a `Precondition` holds, as text.
pub enum PreconditionView {
    Predicate(TermView),
    Equal(Seq<PreconditionView>),
    And(Seq<PreconditionView>),
    Or(Seq<PreconditionView>),
    Not(Box<PreconditionView>),
}

impl Precondition {
    /// The precondition as text, children in order.
    pub open spec fn model(self) -> PreconditionView
        decreases self,
    {
        match self {
            Precondition::Predicate(t) => PreconditionView::Predicate(t@),
            Precondition::Equal(row) => PreconditionView::Equal(
                Seq::new(
                    row@.len(),
                    |i: int|
                        if 0 <= i < row@.len() {
                            row@[i].model()
                        } else {
                            arbitrary()
                        },
                ),
            ),
            Precondition::And(row) => PreconditionView::And(
                Seq::new(
                    row@.len(),
                    |i: int|
                        if 0 <= i < row@.len() {
                            row@[i].model()
                        } else {
                            arbitrary()
                        },
                ),
            ),
            Precondition::Or(row) => PreconditionView::Or(
                Seq::new(
                    row@.len(),
                    |i: int|
                        if 0 <= i < row@.len() {
                            row@[i].model()
                        } else {
                            arbitrary()
                        },
                ),
            ),
            Precondition::Not(child) => PreconditionView::Not(Box::new(child.model())),
        }
    }
}

impl View for Precondition {
    type V = PreconditionView;

    open spec fn view(&self) -> PreconditionView {
        self.model()
    }
}

/// The views of a sequence of preconditions.
pub open spec fn preconditions(v: Seq<Precondition>) -> Seq<PreconditionView> {
    Seq::new(v.len(), |i: int| v[i]@)
}

/// The view of a row node is the node of the views of its row.
pub proof fn lemma_precondition_rows(row: Vec<Precondition>)
    ensures
        Precondition::Equal(row)@ == PreconditionView::Equal(preconditions(row@)),
        Precondition::And(row)@ == PreconditionView::And(preconditions(row@)),
        Precondition::Or(row)@ == PreconditionView::Or(preconditions(row@)),
{
    assert(Precondition::Equal(row).model()->Equal_0 =~= preconditions(row@));
    assert(Precondition::And(row).model()->And_0 =~= preconditions(row@));
    assert(Precondition::Or(row).model()->Or_0 =~= preconditions(row@));
}

/// A name without the sigil `?` that may lead it.
pub open spec fn bare(name: Seq<char>) -> Seq<char> {
    if name.len() > 0 && name[0] == '?' {
        name.skip(1)
    } else {
        name
    }
}

/// Zero or more names, each after optional whitespace and without its
/// sigil, with the position behind the last one.
pub open spec fn bare_names(s: Seq<u8>, pos: int) -> (Seq<Seq<char>>, int) {
    let found = names(s, pos);
    (Seq::new(found.0.len(), |i: int| bare(found.0[i])), found.1)
}

/// What stands between the parentheses of a precondition that opened just
/// before `pos`: `=`, `and` or `or` with one or more children, `not` with
/// one child, or a predicate and its operands.
pub open spec fn precondition_body(s: Seq<u8>, pos: int) -> Result<(PreconditionView, int), Fail>
    decreases s.len() - pos, 2int,
{
    if 0 <= pos < s.len() && s[pos] == 61 {
        match precondition_row(s, pos + 1) {
            Ok((found, stop)) => Ok((PreconditionView::Equal(found), stop)),
            Err(f) => Err(f),
        }
    } else {
        match named(s, pos) {
            Some((name, end)) if pos < end <= s.len() => {
                let word = s.subrange(pos, end);
                if same_word(word, "and"@) {
                    match precondition_row(s, end) {
                        Ok((found, stop)) => Ok((PreconditionView::And(found), stop)),
                        Err(f) => Err(f),
                    }
                } else if same_word(word, "or"@) {
                    match precondition_row(s, end) {
                        Ok((found, stop)) => Ok((PreconditionView::Or(found), stop)),
                        Err(f) => Err(f),
                    }
                } else if same_word(word, "not"@) {
                    match precondition(s, end) {
                        Ok((child, stop)) => Ok((PreconditionView::Not(Box::new(child)), stop)),
                        Err(f) => Err(f),
                    }
                } else {
                    let operands = bare_names(s, end);
                    Ok(
                        (
                            PreconditionView::Predicate(
                                TermView { name, parameters: operands.0 },
                            ),
                            operands.1,
                        ),
                    )
                }
            },
            _ => Err(unexpected(s, pos)),
        }
    }
}

/// Preconditions in a row, as long as a parenthesis opens. A child that
/// fails makes the whole row fail.
pub open spec fn precondition_children(s: Seq<u8>, pos: int) -> Result<
    (Seq<PreconditionView>, int),
    Fail,
>
    decreases s.len() - pos, 1int,
{
    let at = skip_multispace(s, pos);
    if 0 <= at < s.len() && s[at] == 40 {
        match precondition(s, pos) {
            Ok((first, end)) if pos < end <= s.len() => prepend(
                seq![first],
                precondition_children(s, end),
            ),
            Ok(_) => Err(unexpected(s, pos)),
            Err(f) => Err(f),
        }
    } else {
        Ok((Seq::empty(), pos))
    }
}

/// One or more preconditions in a row.
pub open spec fn precondition_row(s: Seq<u8>, pos: int) -> Result<
    (Seq<PreconditionView>, int),
    Fail,
>
    decreases s.len() - pos, 2int,
{
    match precondition_children(s, pos) {
        Ok((found, stop)) => if found.len() == 0 {
            Err(unexpected(s, skip_multispace(s, stop)))
        } else {
            Ok((found, stop))
        },
        Err(f) => Err(f),
    }
}

/// One parenthesized precondition at `pos`, with the position behind its
/// closing parenthesis and the whitespace after it.
pub open spec fn precondition(s: Seq<u8>, pos: int) -> Result<(PreconditionView, int), Fail>
    decreases s.len() - pos, 0int,
{
    match open_paren(s, pos) {
        Ok(inner) if pos < inner <= s.len() => match precondition_body(s, inner) {
            Ok((value, end)) => match close_paren(s, end) {
                Ok(stop) => Ok((value, stop)),
                Err(f) => Err(f),
            },
            Err(f) => Err(f),
        },
        Ok(_) => Err(unexpected(s, pos)),
        Err(f) => Err(f),
    }
}

/// Reads names as `parse_names` does, dropping the sigil of each.
pub fn parse_bare_names(input: &[u8], pos: usize) -> (out: (Vec<String>, usize))
    requires
        pos <= input@.len(),
    ensures
        (strings(out.0@), out.1 as int) == bare_names(input@, pos as int),
        pos <= out.1 <= input@.len(),
{
    let mut found: Vec<String> = Vec::new();
    let mut cur: usize = pos;
    let ghost mut seen: Seq<Seq<char>> = Seq::empty();
    loop
        invariant
            pos <= cur <= input@.len(),
            names(input@, pos as int) == (
                seen + names(input@, cur as int).0,
                names(input@, cur as int).1,
            ),
            strings(found@) == Seq::new(seen.len(), |i: int| bare(seen[i])),
        decreases input@.len() - cur,
    {
        let at = multispace0(input, cur);
        if !(at < input.len() && is_name_start_byte(input[at])) {
            proof {
                assert(seen + Seq::<Seq<char>>::empty() =~= seen);
            }
            return (found, cur);
        }
        let end = scan_name(input, at + 1);
        let from = if input[at] == 63 { at + 1 } else { at };
        let name = make_text(input, from, end);
        proof {
            let whole = text(input@.subrange(at as int, end as int));
            let rest = names(input@, end as int);
            assert(whole[0] == input@[at as int] as char);
            assert(name@ =~= bare(whole));
            assert(seen.push(whole) + rest.0 =~= seen + (seq![whole] + rest.0));
            assert(strings(found@.push(name)) =~= strings(found@).push(name@));
            assert(strings(found@).push(name@) =~= Seq::new(
                seen.push(whole).len(),
                |i: int| bare(seen.push(whole)[i]),
            ));
            seen = seen.push(whole);
        }
        found.push(name);
        cur = end;
    }
}

/// Parses what stands between the parentheses of a precondition.
pub fn parse_precondition_body(input: &[u8], pos: usize) -> (out: Result<
    (Precondition, usize),
    (String, Span),
>)
    requires
        pos <= input@.len(),
    ensures
        out matches Ok(r) ==> precondition_body(input@, pos as int) == Ok::<_, Fail>(
            (r.0@, r.1 as int),
        ) && pos < r.1 <= input@.len(),
        out matches Err(e) ==> precondition_body(input@, pos as int) == Err::<
            (PreconditionView, int),
            _,
        >((e.0@, e.1)),
    decreases input@.len() - pos, 2int,
{
    if pos < input.len() && input[pos] == 61 {
        let (found, stop) = parse_precondition_row(input, pos + 1)?;
        proof {
            lemma_precondition_rows(found);
        }
        return Ok((Precondition::Equal(found), stop));
    }
    if !(pos < input.len() && is_name_start_byte(input[pos])) {
        return Err(fail_at(input, pos));
    }
    let end = scan_name(input, pos + 1);
    if word_is(input, pos, end, "and") {
        let (found, stop) = parse_precondition_row(input, end)?;
        proof {
            lemma_precondition_rows(found);
        }
        Ok((Precondition::And(found), stop))
    } else if word_is(input, pos, end, "or") {
        let (found, stop) = parse_precondition_row(input, end)?;
        proof {
            lemma_precondition_rows(found);
        }
        Ok((Precondition::Or(found), stop))
    } else if word_is(input, pos, end, "not") {
        let (child, stop) = parse_precondition_at(input, end)?;
        Ok((Precondition::Not(Box::new(child)), stop))
    } else {
        let name = make_text(input, pos, end);
        let (parameters, stop) = parse_bare_names(input, end);
        Ok((Precondition::Predicate(Term { name, parameters }), stop))
    }
}

/// Parses one or more preconditions in a row.
pub fn parse_precondition_row(input: &[u8], pos: usize) -> (out: Result<
    (Vec<Precondition>, usize),
    (String, Span),
>)
    requires
        pos <= input@.len(),
    ensures
        out matches Ok(r) ==> precondition_row(input@, pos as int) == Ok::<_, Fail>(
            (preconditions(r.0@), r.1 as int),
        ) && pos < r.1 <= input@.len(),
        out matches Err(e) ==> precondition_row(input@, pos as int) == Err::<
            (Seq<PreconditionView>, int),
            _,
        >((e.0@, e.1)),
    decreases input@.len() - pos, 2int,
{
    let mut found: Vec<Precondition> = Vec::new();
    let mut cur: usize = pos;
    loop
        invariant
            pos <= cur <= input@.len(),
            found@.len() > 0 ==> pos < cur,
            precondition_children(input@, pos as int) == prepend(
                preconditions(found@),
                precondition_children(input@, cur as int),
            ),
        decreases input@.len() - cur,
    {
        let at = multispace0(input, cur);
        if !(at < input.len() && input[at] == 40) {
            proof {
                assert(preconditions(found@) + Seq::<PreconditionView>::empty() =~= preconditions(
                    found@,
                ));
            }
            if found.len() == 0 {
                return Err(fail_at(input, at));
            }
            return Ok((found, cur));
        }
        match parse_precondition_at(input, cur) {
            Ok((child, end)) => {
                proof {
                    if let Ok((more, stop)) = precondition_children(input@, end as int) {
                        assert(preconditions(found@.push(child)) + more =~= preconditions(found@)
                            + (seq![child@] + more));
                    }
                }
                found.push(child);
                cur = end;
            },
            Err(e) => {
                return Err(e);
            },
        }
    }
}

/// Parses one parenthesized precondition that starts at `pos`.
pub fn parse_precondition_at(input: &[u8], pos: usize) -> (out: Result<
    (Precondition, usize),
    (String, Span),
>)
    requires
        pos <= input@.len(),
    ensures
        out matches Ok(r) ==> precondition(input@, pos as int) == Ok::<_, Fail>(
            (r.0@, r.1 as int),
        ) && pos < r.1 <= input@.len(),
        out matches Err(e) ==> precondition(input@, pos as int) == Err::<
            (PreconditionView, int),
            _,
        >((e.0@, e.1)),
    decreases input@.len() - pos, 0int,
{
    let inner = parse_open(input, pos)?;
    let (value, end) = parse_precondition_body(input, inner)?;
    let stop = parse_close(input, end)?;
    Ok((value, stop))
}


/// Parses one parenthesized precondition at the start of the input, and
/// hands back what is left of the input behind it.
pub fn parse_precondition<'a>(input: &'a str) -> (out: Result<
    (&'a [u8], Precondition),
    (String, Span),
>)
    ensures
        out matches Ok(r) ==> precondition(input.spec_bytes(), 0) matches Ok(found) && r.1@
            == found.0 && r.0@ == input.spec_bytes().skip(found.1),
        out matches Err(e) ==> precondition(input.spec_bytes(), 0) == Err::<
            (PreconditionView, int),
            _,
        >((e.0@, e.1)),
{
    let bytes = input.as_bytes();
    let (found, end) = parse_precondition_at(bytes, 0)?;
    Ok((remainder(bytes, end), found))
}

} // verus!
