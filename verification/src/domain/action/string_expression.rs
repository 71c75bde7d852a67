//! Nested logical expressions over predicates.

use vstd::prelude::*;
use vstd::string::StringSliceAdditionalSpecFns;
use crate::shared::{
    close_paren, copy_names, fail_at, is_name_start_byte, make_text, multispace0, named, names,
    open_paren, parse_close, parse_names, parse_open, prepend, remainder, same_word, scan_name,
    skip_multispace, strings, text, unexpected, word_is, Fail, Span,
};
use crate::term::{Term, TermView};

verus! {

/// A nested logical expression over predicates.
#[derive(Debug, PartialEq, Eq, Hash)]
pub enum StringExpression {
    Predicate(Term),
    Equal(Vec<String>),
    And(StringExpressions),
    Or(StringExpressions),
    Not(Box<StringExpression>),
    Imply(Box<StringExpression>, Box<StringExpression>),
}

/// A row of expressions.
pub type StringExpressions = Vec<StringExpression>;

/// What a `StringExpression` holds, as text.
pub enum ExpressionView {
    Predicate(TermView),
    Equal(Seq<Seq<char>>),
    And(Seq<ExpressionView>),
    Or(Seq<ExpressionView>),
    Not(Box<ExpressionView>),
    Imply(Box<ExpressionView>, Box<ExpressionView>),
}

impl StringExpression {
    /// The expression as text, children in order.
    pub open spec fn model(self) -> ExpressionView
        decreases self,
    {
        match self {
            StringExpression::Predicate(t) => ExpressionView::Predicate(t@),
            StringExpression::Equal(operands) => ExpressionView::Equal(strings(operands@)),
            StringExpression::And(children) => ExpressionView::And(
                Seq::new(
                    children@.len(),
                    |i: int|
                        if 0 <= i < children@.len() {
                            children@[i].model()
                        } else {
                            arbitrary()
                        },
                ),
            ),
            StringExpression::Or(children) => ExpressionView::Or(
                Seq::new(
                    children@.len(),
                    |i: int|
                        if 0 <= i < children@.len() {
                            children@[i].model()
                        } else {
                            arbitrary()
                        },
                ),
            ),
            StringExpression::Not(child) => ExpressionView::Not(Box::new(child.model())),
            StringExpression::Imply(a, b) => ExpressionView::Imply(
                Box::new(a.model()),
                Box::new(b.model()),
            ),
        }
    }
}

impl View for StringExpression {
    type V = ExpressionView;

    open spec fn view(&self) -> ExpressionView {
        self.model()
    }
}

/// The views of a sequence of expressions.
pub open spec fn expressions(v: Seq<StringExpression>) -> Seq<ExpressionView> {
    Seq::new(v.len(), |i: int| v[i]@)
}


/// What stands between the parentheses of an expression that opened just
/// before `pos`: `=` and operand names, a keyword and its children, or a
/// predicate and its operands. The keywords `and`, `or`, `not` and `imply`
/// are whole names, whatever their letter case.
pub open spec fn body(s: Seq<u8>, pos: int) -> Result<(ExpressionView, int), Fail>
    decreases s.len() - pos, 2int,
{
    if 0 <= pos < s.len() && s[pos] == 61 {
        let operands = names(s, pos + 1);
        if operands.0.len() == 0 {
            Err(unexpected(s, skip_multispace(s, pos + 1)))
        } else {
            Ok((ExpressionView::Equal(operands.0), operands.1))
        }
    } else {
        match named(s, pos) {
            Some((name, end)) if pos < end <= s.len() => {
                let word = s.subrange(pos, end);
                if same_word(word, "and"@) {
                    match children(s, end) {
                        Ok((found, stop)) => Ok((ExpressionView::And(found), stop)),
                        Err(f) => Err(f),
                    }
                } else if same_word(word, "or"@) {
                    match children(s, end) {
                        Ok((found, stop)) => if found.len() == 0 {
                            Err(unexpected(s, skip_multispace(s, stop)))
                        } else {
                            Ok((ExpressionView::Or(found), stop))
                        },
                        Err(f) => Err(f),
                    }
                } else if same_word(word, "not"@) {
                    match expression(s, end) {
                        Ok((child, stop)) => Ok((ExpressionView::Not(Box::new(child)), stop)),
                        Err(f) => Err(f),
                    }
                } else if same_word(word, "imply"@) {
                    match expression(s, end) {
                        Ok((first, mid)) if end < mid <= s.len() => match expression(s, mid) {
                            Ok((second, stop)) => Ok(
                                (ExpressionView::Imply(Box::new(first), Box::new(second)), stop),
                            ),
                            Err(f) => Err(f),
                        },
                        Ok(_) => Err(unexpected(s, end)),
                        Err(f) => Err(f),
                    }
                } else {
                    let operands = names(s, end);
                    Ok(
                        (
                            ExpressionView::Predicate(TermView { name, parameters: operands.0 }),
                            operands.1,
                        ),
                    )
                }
            },
            _ => Err(unexpected(s, pos)),
        }
    }
}

/// Zero or more expressions in a row. The row ends where no parenthesis
/// opens; a child that fails makes the whole row fail.
pub open spec fn children(s: Seq<u8>, pos: int) -> Result<(Seq<ExpressionView>, int), Fail>
    decreases s.len() - pos, 1int,
{
    let at = skip_multispace(s, pos);
    if 0 <= at < s.len() && s[at] == 40 {
        match expression(s, pos) {
            Ok((first, end)) if pos < end <= s.len() => match children(s, end) {
                Ok((rest, stop)) => Ok((seq![first] + rest, stop)),
                Err(f) => Err(f),
            },
            Ok(_) => Err(unexpected(s, pos)),
            Err(f) => Err(f),
        }
    } else {
        Ok((Seq::empty(), pos))
    }
}

/// One parenthesized expression at `pos`, with the position behind its
/// closing parenthesis and the whitespace after it.
pub open spec fn expression(s: Seq<u8>, pos: int) -> Result<(ExpressionView, int), Fail>
    decreases s.len() - pos, 0int,
{
    match open_paren(s, pos) {
        Ok(inner) if pos < inner <= s.len() => match body(s, inner) {
            Ok((value, end)) => match close_paren(s, end) {
                Ok(stop) => Ok((value, stop)),
                Err(f) => Err(f),
            },
            Err(f) => Err(f),
        },
        Ok(_) => Err(unexpected(s, pos)),
        Err(f) => Err(f),
    }
}


/// The view of a row node is the node of the views of its row.
pub proof fn lemma_row_views(row: Vec<StringExpression>)
    ensures
        StringExpression::And(row)@ == ExpressionView::And(expressions(row@)),
        StringExpression::Or(row)@ == ExpressionView::Or(expressions(row@)),
{
    assert(StringExpression::And(row).model()->And_0 =~= expressions(row@));
    assert(StringExpression::Or(row).model()->Or_0 =~= expressions(row@));
}

/// Copies an expression, children and all.
pub fn copy_expression(e: &StringExpression) -> (out: StringExpression)
    ensures
        out@ == e@,
    decreases e,
{
    match e {
        StringExpression::Predicate(t) => StringExpression::Predicate(
            Term { name: t.name.clone(), parameters: copy_names(&t.parameters) },
        ),
        StringExpression::Equal(operands) => StringExpression::Equal(copy_names(operands)),
        StringExpression::And(row) => {
            let copied = copy_expression_row(row);
            proof {
                lemma_row_views(copied);
                lemma_row_views(*row);
            }
            StringExpression::And(copied)
        },
        StringExpression::Or(row) => {
            let copied = copy_expression_row(row);
            proof {
                lemma_row_views(copied);
                lemma_row_views(*row);
            }
            StringExpression::Or(copied)
        },
        StringExpression::Not(child) => StringExpression::Not(Box::new(copy_expression(child))),
        StringExpression::Imply(first, second) => StringExpression::Imply(
            Box::new(copy_expression(first)),
            Box::new(copy_expression(second)),
        ),
    }
}

/// Copies a row of expressions.
pub fn copy_expression_row(row: &Vec<StringExpression>) -> (out: Vec<StringExpression>)
    ensures
        expressions(out@) == expressions(row@),
    decreases row,
{
    let mut out: Vec<StringExpression> = Vec::new();
    let mut i: usize = 0;
    while i < row.len()
        invariant
            0 <= i <= row@.len(),
            expressions(out@) == expressions(row@).take(i as int),
        decreases row@.len() - i,
    {
        let ghost before = out@;
        let copied = copy_expression(&row[i]);
        out.push(copied);
        i += 1;
        proof {
            assert(expressions(out@) =~= expressions(before).push(row@[i - 1]@));
            assert(expressions(row@).take(i as int) =~= expressions(row@).take(i - 1).push(
                row@[i - 1]@,
            ));
        }
    }
    proof {
        assert(expressions(row@).take(i as int) =~= expressions(row@));
    }
    out
}

impl Clone for StringExpression {
    fn clone(&self) -> (out: Self)
        ensures
            out@ == self@,
    {
        copy_expression(self)
    }
}

/// Parses what stands between the parentheses of an expression.
pub fn parse_body(input: &[u8], pos: usize) -> (out: Result<
    (StringExpression, usize),
    (String, Span),
>)
    requires
        pos <= input@.len(),
    ensures
        out matches Ok(r) ==> body(input@, pos as int) == Ok::<_, Fail>((r.0@, r.1 as int)) && pos
            < r.1 <= input@.len(),
        out matches Err(e) ==> body(input@, pos as int) == Err::<(ExpressionView, int), _>(
            (e.0@, e.1),
        ),
    decreases input@.len() - pos, 2int,
{
    if pos < input.len() && input[pos] == 61 {
        let (operands, stop) = parse_names(input, pos + 1);
        if operands.len() == 0 {
            let at = multispace0(input, pos + 1);
            return Err(fail_at(input, at));
        }
        return Ok((StringExpression::Equal(operands), stop));
    }
    if !(pos < input.len() && is_name_start_byte(input[pos])) {
        return Err(fail_at(input, pos));
    }
    let end = scan_name(input, pos + 1);
    if word_is(input, pos, end, "and") {
        match parse_children(input, end) {
            Ok((found, stop)) => {
                proof {
                    lemma_row_views(found);
                }
                Ok((StringExpression::And(found), stop))
            },
            Err(e) => Err(e),
        }
    } else if word_is(input, pos, end, "or") {
        match parse_children(input, end) {
            Ok((found, stop)) => {
                if found.len() == 0 {
                    let at = multispace0(input, stop);
                    return Err(fail_at(input, at));
                }
                proof {
                    lemma_row_views(found);
                }
                Ok((StringExpression::Or(found), stop))
            },
            Err(e) => Err(e),
        }
    } else if word_is(input, pos, end, "not") {
        match parse_expression_at(input, end) {
            Ok((child, stop)) => Ok((StringExpression::Not(Box::new(child)), stop)),
            Err(e) => Err(e),
        }
    } else if word_is(input, pos, end, "imply") {
        match parse_expression_at(input, end) {
            Ok((first, mid)) => match parse_expression_at(input, mid) {
                Ok((second, stop)) => Ok(
                    (StringExpression::Imply(Box::new(first), Box::new(second)), stop),
                ),
                Err(e) => Err(e),
            },
            Err(e) => Err(e),
        }
    } else {
        let name = make_text(input, pos, end);
        let (parameters, stop) = parse_names(input, end);
        Ok((StringExpression::Predicate(Term { name, parameters }), stop))
    }
}

/// Parses zero or more expressions in a row.
pub fn parse_children(input: &[u8], pos: usize) -> (out: Result<
    (Vec<StringExpression>, usize),
    (String, Span),
>)
    requires
        pos <= input@.len(),
    ensures
        out matches Ok(r) ==> children(input@, pos as int) == Ok::<_, Fail>(
            (expressions(r.0@), r.1 as int),
        ) && pos <= r.1 <= input@.len(),
        out matches Err(e) ==> children(input@, pos as int) == Err::<
            (Seq<ExpressionView>, int),
            _,
        >((e.0@, e.1)),
    decreases input@.len() - pos, 1int,
{
    let mut found: Vec<StringExpression> = Vec::new();
    let mut cur: usize = pos;
    loop
        invariant
            pos <= cur <= input@.len(),
            children(input@, pos as int) == prepend(
                expressions(found@),
                children(input@, cur as int),
            ),
        decreases input@.len() - cur,
    {
        let at = multispace0(input, cur);
        if !(at < input.len() && input[at] == 40) {
            proof {
                assert(expressions(found@) + Seq::<ExpressionView>::empty() =~= expressions(
                    found@,
                ));
            }
            return Ok((found, cur));
        }
        match parse_expression_at(input, cur) {
            Ok((child, end)) => {
                proof {
                    let rest = children(input@, end as int);
                    if let Ok((more, stop)) = rest {
                        assert(expressions(found@.push(child)) + more =~= expressions(found@) + (
                            seq![child@] + more));
                    }
                }
                found.push(child);
                cur = end;
            },
            Err(e) => {
                return Err(e);
            },
        }
    }
}

/// Parses one parenthesized expression that starts at `pos`.
pub fn parse_expression_at(input: &[u8], pos: usize) -> (out: Result<
    (StringExpression, usize),
    (String, Span),
>)
    requires
        pos <= input@.len(),
    ensures
        out matches Ok(r) ==> expression(input@, pos as int) == Ok::<_, Fail>(
            (r.0@, r.1 as int),
        ) && pos < r.1 <= input@.len(),
        out matches Err(e) ==> expression(input@, pos as int) == Err::<(ExpressionView, int), _>(
            (e.0@, e.1),
        ),
    decreases input@.len() - pos, 0int,
{
    let inner = parse_open(input, pos)?;
    let (value, end) = parse_body(input, inner)?;
    let stop = parse_close(input, end)?;
    Ok((value, stop))
}


/// Parses one parenthesized expression at the start of the input, and hands
/// back what is left of the input behind it.
pub fn parse_expression<'a>(input: &'a str) -> (out: Result<
    (&'a [u8], StringExpression),
    (String, Span),
>)
    ensures
        out matches Ok(r) ==> expression(input.spec_bytes(), 0) matches Ok(found) && r.1@
            == found.0 && r.0@ == input.spec_bytes().skip(found.1),
        out matches Err(e) ==> expression(input.spec_bytes(), 0) == Err::<
            (ExpressionView, int),
            _,
        >((e.0@, e.1)),
{
    let bytes = input.as_bytes();
    let (found, end) = parse_expression_at(bytes, 0)?;
    Ok((remainder(bytes, end), found))
}

} // verus!
