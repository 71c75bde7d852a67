//! Domain files: types, constants, predicates and actions.

pub mod action;
pub mod constants;
pub mod parameter;

use vstd::prelude::*;
use vstd::string::StringSliceAdditionalSpecFns;
use crate::domain::action::string_expression::{
    expression, parse_expression_at, ExpressionView, StringExpression,
};
use crate::domain::parameter::{
    parameter_views, parse_whole_parameters, whole_parameters, Parameter, ParameterView, Parameters,
};
use crate::shared::{
    char_span, close_paren, fail_at, keyword_at, make_text, multispace0, name_end, named,
    open_paren, parse_close, parse_keyword, parse_named, parse_open, parse_tag, prepend,
    remove_comments, scan_char, scan_name, skip_multispace, strings, tag_at, text, unexpected,
    without_comments, Fail, Span,
};
use crate::term::{terms, Term, TermView};

verus! {

/// An action: its parameters, and what must hold before and what holds
/// after, where the file says so.
#[derive(Debug, PartialEq, Eq)]
pub struct Action {
    pub name: String,
    pub parameters: Parameters,
    pub precondition: Option<StringExpression>,
    pub effect: Option<StringExpression>,
}

/// A domain file.
#[derive(Debug, PartialEq, Eq)]
pub struct Domain {
    pub name: String,
    pub requirements: Vec<String>,
    pub types: Parameters,
    pub constants: Parameters,
    pub predicates: Vec<Term>,
    pub actions: Vec<Action>,
}

/// What an `Action` holds, as text.
pub struct ActionView {
    pub name: Seq<char>,
    pub parameters: Seq<ParameterView>,
    pub precondition: Option<ExpressionView>,
    pub effect: Option<ExpressionView>,
}

/// What a `Domain` holds, as text.
pub struct DomainView {
    pub name: Seq<char>,
    pub requirements: Seq<Seq<char>>,
    pub types: Seq<ParameterView>,
    pub constants: Seq<ParameterView>,
    pub predicates: Seq<TermView>,
    pub actions: Seq<ActionView>,
}

/// The view of an optional expression.
pub open spec fn optional_expression(v: Option<StringExpression>) -> Option<ExpressionView> {
    match v {
        Some(found) => Some(found@),
        None => None,
    }
}

impl View for Action {
    type V = ActionView;

    open spec fn view(&self) -> ActionView {
        ActionView {
            name: self.name@,
            parameters: parameter_views(self.parameters@),
            precondition: optional_expression(self.precondition),
            effect: optional_expression(self.effect),
        }
    }
}

/// The views of a sequence of actions.
pub open spec fn action_views(v: Seq<Action>) -> Seq<ActionView> {
    Seq::new(v.len(), |i: int| v[i]@)
}

impl View for Domain {
    type V = DomainView;

    open spec fn view(&self) -> DomainView {
        DomainView {
            name: self.name@,
            requirements: strings(self.requirements@),
            types: parameter_views(self.types@),
            constants: parameter_views(self.constants@),
            predicates: terms(self.predicates@),
            actions: action_views(self.actions@),
        }
    }
}

/// The name that a parameter declares.
pub open spec fn declared(p: ParameterView) -> Seq<char> {
    match p {
        ParameterView::Untyped { name } => name,
        ParameterView::Typed { name, .. } => name,
        ParameterView::Either { name, .. } => name,
    }
}

/// The names that a row of parameters declares.
pub open spec fn declared_names(row: Seq<ParameterView>) -> Seq<Seq<char>> {
    Seq::new(row.len(), |i: int| declared(row[i]))
}

/// Requirement keys from `pos` on: each a colon and a name, after optional
/// whitespace. A key is kept as it is written, colon included.
pub open spec fn requirements(s: Seq<u8>, pos: int) -> (Seq<Seq<char>>, int)
    decreases s.len() - pos,
{
    let at = skip_multispace(s, pos);
    if 0 <= at < s.len() && s[at] == 58 {
        let end = name_end(s, at + 1);
        if pos < end <= s.len() {
            let rest = requirements(s, end);
            (seq![text(s.subrange(at, end))] + rest.0, rest.1)
        } else {
            (Seq::empty(), pos)
        }
    } else {
        (Seq::empty(), pos)
    }
}

/// One predicate declaration at `pos`: in parentheses a name and a
/// parameter list, of which the names are kept.
pub open spec fn predicate(s: Seq<u8>, pos: int) -> Result<(TermView, int), Fail> {
    match open_paren(s, pos) {
        Ok(inner) => match named(s, inner) {
            Some((name, end)) => match whole_parameters(s, end) {
                Ok(formals) => match close_paren(s, formals.1) {
                    Ok(stop) => Ok(
                        (TermView { name, parameters: declared_names(formals.0) }, stop),
                    ),
                    Err(f) => Err(f),
                },
                Err(f) => Err(f),
            },
            None => Err(unexpected(s, inner)),
        },
        Err(f) => Err(f),
    }
}

/// Predicate declarations in a row, as long as a parenthesis opens.
pub open spec fn predicates(s: Seq<u8>, pos: int) -> Result<(Seq<TermView>, int), Fail>
    decreases s.len() - pos,
{
    let at = skip_multispace(s, pos);
    if 0 <= at < s.len() && s[at] == 40 {
        match predicate(s, pos) {
            Ok((first, end)) => if pos < end <= s.len() {
                prepend(seq![first], predicates(s, end))
            } else {
                Err(unexpected(s, pos))
            },
            Err(f) => Err(f),
        }
    } else {
        Ok((Seq::empty(), pos))
    }
}

/// An expression behind its tag, where the tag stands at `pos`; nothing
/// where another thing stands there.
pub open spec fn tagged_expression(s: Seq<u8>, pos: int, tag: Seq<char>) -> Result<
    (Option<ExpressionView>, int),
    Fail,
> {
    match tag_at(s, pos, tag) {
        Some(end) => match expression(s, end) {
            Ok((found, stop)) => Ok((Some(found), stop)),
            Err(f) => Err(f),
        },
        None => Ok((None, pos)),
    }
}

/// What follows the tag of an action: its name, `:parameters` and a
/// parenthesized parameter list, then `:precondition` and `:effect`, each
/// with an expression, where they are given, in that order.
pub open spec fn action(s: Seq<u8>, pos: int) -> Result<(ActionView, int), Fail> {
    let at = skip_multispace(s, pos);
    match named(s, at) {
        None => Err(unexpected(s, at)),
        Some((name, end)) => {
            let tag = skip_multispace(s, end);
            match tag_at(s, tag, "parameters"@) {
                None => Err(unexpected(s, tag)),
                Some(after) => match open_paren(s, after) {
                    Err(f) => Err(f),
                    Ok(inner) => match whole_parameters(s, inner) {
                        Err(f) => Err(f),
                        Ok(formals) => match close_paren(s, formals.1) {
                            Err(f) => Err(f),
                            Ok(next) => match tagged_expression(s, next, "precondition"@) {
                                Err(f) => Err(f),
                                Ok((precondition, then)) => match tagged_expression(
                                    s,
                                    then,
                                    "effect"@,
                                ) {
                                    Err(f) => Err(f),
                                    Ok((effect, stop)) => Ok(
                                        (
                                            ActionView {
                                                name,
                                                parameters: formals.0,
                                                precondition,
                                                effect,
                                            },
                                            stop,
                                        ),
                                    ),
                                },
                            },
                        },
                    },
                },
            }
        },
    }
}

/// The content of the section whose tag stands at `pos`, added to what the
/// file held so far: a later section of requirements, types, constants or
/// predicates replaces an earlier one, and each action is added to the row.
/// A tag that is none of the five is an error, and so is a `-` that no
/// type follows.
pub open spec fn section_body(s: Seq<u8>, pos: int, so_far: DomainView) -> Result<
    (DomainView, int),
    Fail,
> {
    if tag_at(s, pos, "requirements"@) is Some {
        let found = requirements(s, tag_at(s, pos, "requirements"@).unwrap());
        Ok((DomainView { requirements: found.0, ..so_far }, found.1))
    } else if tag_at(s, pos, "types"@) is Some {
        match whole_parameters(s, tag_at(s, pos, "types"@).unwrap()) {
            Ok(found) => Ok((DomainView { types: found.0, ..so_far }, found.1)),
            Err(f) => Err(f),
        }
    } else if tag_at(s, pos, "constants"@) is Some {
        match whole_parameters(s, tag_at(s, pos, "constants"@).unwrap()) {
            Ok(found) => Ok((DomainView { constants: found.0, ..so_far }, found.1)),
            Err(f) => Err(f),
        }
    } else if tag_at(s, pos, "predicates"@) is Some {
        match predicates(s, tag_at(s, pos, "predicates"@).unwrap()) {
            Ok((found, end)) => Ok((DomainView { predicates: found, ..so_far }, end)),
            Err(f) => Err(f),
        }
    } else if tag_at(s, pos, "action"@) is Some {
        match action(s, tag_at(s, pos, "action"@).unwrap()) {
            Ok((found, end)) => Ok(
                (DomainView { actions: so_far.actions.push(found), ..so_far }, end),
            ),
            Err(f) => Err(f),
        }
    } else if pos >= s.len() {
        Err(unexpected(s, pos))
    } else {
        Err(("unknown section tag"@, char_span(s, pos)))
    }
}

/// One section at `pos`, parentheses included.
pub open spec fn section(s: Seq<u8>, pos: int, so_far: DomainView) -> Result<
    (DomainView, int),
    Fail,
> {
    match open_paren(s, pos) {
        Ok(inner) => match section_body(s, inner, so_far) {
            Ok((found, end)) => match close_paren(s, end) {
                Ok(stop) => Ok((found, stop)),
                Err(f) => Err(f),
            },
            Err(f) => Err(f),
        },
        Err(f) => Err(f),
    }
}

/// The sections from `pos` up to the parenthesis that closes the
/// definition. What follows that parenthesis is not read.
pub open spec fn sections(s: Seq<u8>, pos: int, so_far: DomainView) -> Result<DomainView, Fail>
    decreases s.len() - pos,
{
    let at = skip_multispace(s, pos);
    if 0 <= at < s.len() && s[at] == 41 {
        Ok(so_far)
    } else {
        match section(s, pos, so_far) {
            Ok((found, end)) => if pos < end <= s.len() {
                sections(s, end, found)
            } else {
                Err(unexpected(s, pos))
            },
            Err(f) => Err(f),
        }
    }
}

/// The head of a domain file: `(define (domain NAME)`, with the name and
/// the position behind it.
pub open spec fn head(s: Seq<u8>) -> Result<(Seq<char>, int), Fail> {
    match open_paren(s, 0) {
        Err(f) => Err(f),
        Ok(first) => match keyword_at(s, first, "define"@) {
            None => Err(unexpected(s, first)),
            Some(defined) => match open_paren(s, defined) {
                Err(f) => Err(f),
                Ok(second) => match keyword_at(s, second, "domain"@) {
                    None => Err(unexpected(s, second)),
                    Some(tagged) => {
                        let at = skip_multispace(s, tagged);
                        match named(s, at) {
                            None => Err(unexpected(s, at)),
                            Some((name, end)) => match close_paren(s, end) {
                                Err(f) => Err(f),
                                Ok(stop) => Ok((name, stop)),
                            },
                        }
                    },
                },
            },
        }
    }
}

/// A domain that holds nothing but its name.
pub open spec fn named_only(name: Seq<char>) -> DomainView {
    DomainView {
        name,
        requirements: Seq::empty(),
        types: Seq::empty(),
        constants: Seq::empty(),
        predicates: Seq::empty(),
        actions: Seq::empty(),
    }
}

/// A whole domain file that holds no comment: its head, then its sections.
pub open spec fn clean_domain(s: Seq<u8>) -> Result<DomainView, Fail> {
    match head(s) {
        Ok((name, end)) => sections(s, end, named_only(name)),
        Err(f) => Err(f),
    }
}

/// A whole domain file, comments blanked first.
pub open spec fn domain(s: Seq<u8>) -> Result<DomainView, Fail> {
    clean_domain(without_comments(s))
}


/// Parses requirement keys.
pub fn parse_requirements(input: &[u8], pos: usize) -> (out: (Vec<String>, usize))
    requires
        pos <= input@.len(),
    ensures
        (strings(out.0@), out.1 as int) == requirements(input@, pos as int),
        pos <= out.1 <= input@.len(),
{
    let mut found: Vec<String> = Vec::new();
    let mut cur: usize = pos;
    loop
        invariant
            pos <= cur <= input@.len(),
            requirements(input@, pos as int) == (
                strings(found@) + requirements(input@, cur as int).0,
                requirements(input@, cur as int).1,
            ),
        decreases input@.len() - cur,
    {
        let at = multispace0(input, cur);
        if !(at < input.len() && input[at] == 58) {
            proof {
                assert(strings(found@) + Seq::<Seq<char>>::empty() =~= strings(found@));
            }
            return (found, cur);
        }
        let end = scan_name(input, at + 1);
        let key = make_text(input, at, end);
        proof {
            let rest = requirements(input@, end as int);
            assert(strings(found@.push(key)) + rest.0 =~= strings(found@) + (seq![key@] + rest.0));
        }
        found.push(key);
        cur = end;
    }
}

/// Copies the names that a row of parameters declares.
pub fn parameter_names(row: &Vec<Parameter>) -> (out: Vec<String>)
    ensures
        strings(out@) == declared_names(parameter_views(row@)),
{
    let mut out: Vec<String> = Vec::new();
    let mut i: usize = 0;
    while i < row.len()
        invariant
            0 <= i <= row@.len(),
            strings(out@) == declared_names(parameter_views(row@)).take(i as int),
        decreases row@.len() - i,
    {
        let ghost before = out@;
        let name = match &row[i] {
            Parameter::Untyped { name } => name.clone(),
            Parameter::Typed { name, .. } => name.clone(),
            Parameter::Either { name, .. } => name.clone(),
        };
        out.push(name);
        i += 1;
        proof {
            let all = declared_names(parameter_views(row@));
            assert(strings(out@) =~= strings(before).push(all[i - 1]));
            assert(all.take(i as int) =~= all.take(i - 1).push(all[i - 1]));
        }
    }
    proof {
        let all = declared_names(parameter_views(row@));
        assert(all.take(i as int) =~= all);
    }
    out
}

/// Parses one predicate declaration.
pub fn parse_predicate(input: &[u8], pos: usize) -> (out: Result<(Term, usize), (String, Span)>)
    requires
        pos <= input@.len(),
    ensures
        out matches Ok(r) ==> predicate(input@, pos as int) == Ok::<_, Fail>((r.0@, r.1 as int))
            && pos < r.1 <= input@.len(),
        out matches Err(e) ==> predicate(input@, pos as int) == Err::<(TermView, int), _>(
            (e.0@, e.1),
        ),
{
    let inner = parse_open(input, pos)?;
    match parse_named(input, inner) {
        Some((name, end)) => {
            let (formals, after) = parse_whole_parameters(input, end)?;
            let stop = parse_close(input, after)?;
            Ok((Term { name, parameters: parameter_names(&formals) }, stop))
        },
        None => Err(fail_at(input, inner)),
    }
}

/// Parses predicate declarations in a row.
pub fn parse_predicates(input: &[u8], pos: usize) -> (out: Result<
    (Vec<Term>, usize),
    (String, Span),
>)
    requires
        pos <= input@.len(),
    ensures
        out matches Ok(r) ==> predicates(input@, pos as int) == Ok::<_, Fail>(
            (terms(r.0@), r.1 as int),
        ) && pos <= r.1 <= input@.len(),
        out matches Err(e) ==> predicates(input@, pos as int) == Err::<(Seq<TermView>, int), _>(
            (e.0@, e.1),
        ),
{
    let mut found: Vec<Term> = Vec::new();
    let mut cur: usize = pos;
    loop
        invariant
            pos <= cur <= input@.len(),
            predicates(input@, pos as int) == prepend(
                terms(found@),
                predicates(input@, cur as int),
            ),
        decreases input@.len() - cur,
    {
        let at = multispace0(input, cur);
        if !(at < input.len() && input[at] == 40) {
            proof {
                assert(terms(found@) + Seq::<TermView>::empty() =~= terms(found@));
            }
            return Ok((found, cur));
        }
        match parse_predicate(input, cur) {
            Ok((first, end)) => {
                proof {
                    if let Ok((more, stop)) = predicates(input@, end as int) {
                        assert(terms(found@.push(first)) + more =~= terms(found@) + (seq![first@]
                            + more));
                    }
                }
                found.push(first);
                cur = end;
            },
            Err(e) => {
                return Err(e);
            },
        }
    }
}

/// Parses an expression behind its tag, where the tag stands.
pub fn parse_tagged_expression(input: &[u8], pos: usize, tag: &str) -> (out: Result<
    (Option<StringExpression>, usize),
    (String, Span),
>)
    requires
        pos <= input@.len(),
    ensures
        out matches Ok(r) ==> tagged_expression(input@, pos as int, tag@) == Ok::<_, Fail>(
            (optional_expression(r.0), r.1 as int),
        ) && pos <= r.1 <= input@.len(),
        out matches Err(e) ==> tagged_expression(input@, pos as int, tag@) == Err::<
            (Option<ExpressionView>, int),
            _,
        >((e.0@, e.1)),
{
    match parse_tag(input, pos, tag) {
        Some(end) => {
            let (found, stop) = parse_expression_at(input, end)?;
            Ok((Some(found), stop))
        },
        None => Ok((None, pos)),
    }
}

/// Parses what follows the tag of an action.
pub fn parse_action(input: &[u8], pos: usize) -> (out: Result<(Action, usize), (String, Span)>)
    requires
        pos <= input@.len(),
    ensures
        out matches Ok(r) ==> action(input@, pos as int) == Ok::<_, Fail>((r.0@, r.1 as int))
            && pos < r.1 <= input@.len(),
        out matches Err(e) ==> action(input@, pos as int) == Err::<(ActionView, int), _>(
            (e.0@, e.1),
        ),
{
    let at = multispace0(input, pos);
    let (name, end) = match parse_named(input, at) {
        Some(found) => found,
        None => {
            return Err(fail_at(input, at));
        },
    };
    let tag = multispace0(input, end);
    let after = match parse_tag(input, tag, "parameters") {
        Some(after) => after,
        None => {
            return Err(fail_at(input, tag));
        },
    };
    let inner = parse_open(input, after)?;
    let (parameters, closing) = parse_whole_parameters(input, inner)?;
    let next = parse_close(input, closing)?;
    let (precondition, then) = parse_tagged_expression(input, next, "precondition")?;
    let (effect, stop) = parse_tagged_expression(input, then, "effect")?;
    Ok((Action { name, parameters, precondition, effect }, stop))
}

/// Parses the content of the section whose tag stands at `pos`.
pub fn parse_section_body(input: &[u8], pos: usize, so_far: Domain) -> (out: Result<
    (Domain, usize),
    (String, Span),
>)
    requires
        pos <= input@.len(),
    ensures
        out matches Ok(r) ==> section_body(input@, pos as int, so_far@) == Ok::<_, Fail>(
            (r.0@, r.1 as int),
        ) && pos < r.1 <= input@.len(),
        out matches Err(e) ==> section_body(input@, pos as int, so_far@) == Err::<
            (DomainView, int),
            _,
        >((e.0@, e.1)),
{
    let mut current = so_far;
    if let Some(tagged) = parse_tag(input, pos, "requirements") {
        let (found, end) = parse_requirements(input, tagged);
        current.requirements = found;
        Ok((current, end))
    } else if let Some(tagged) = parse_tag(input, pos, "types") {
        let (found, end) = parse_whole_parameters(input, tagged)?;
        current.types = found;
        Ok((current, end))
    } else if let Some(tagged) = parse_tag(input, pos, "constants") {
        let (found, end) = parse_whole_parameters(input, tagged)?;
        current.constants = found;
        Ok((current, end))
    } else if let Some(tagged) = parse_tag(input, pos, "predicates") {
        let (found, end) = parse_predicates(input, tagged)?;
        current.predicates = found;
        Ok((current, end))
    } else if let Some(tagged) = parse_tag(input, pos, "action") {
        let (found, end) = parse_action(input, tagged)?;
        proof {
            assert(action_views(current.actions@.push(found)) =~= action_views(
                current.actions@,
            ).push(found@));
        }
        current.actions.push(found);
        Ok((current, end))
    } else if pos >= input.len() {
        Err(fail_at(input, pos))
    } else {
        Err(
            (
                "unknown section tag".to_owned(),
                Span { start: pos, end: scan_char(input, pos + 1) },
            ),
        )
    }
}

/// Parses one section, parentheses included.
pub fn parse_section(input: &[u8], pos: usize, so_far: Domain) -> (out: Result<
    (Domain, usize),
    (String, Span),
>)
    requires
        pos <= input@.len(),
    ensures
        out matches Ok(r) ==> section(input@, pos as int, so_far@) == Ok::<_, Fail>(
            (r.0@, r.1 as int),
        ) && pos < r.1 <= input@.len(),
        out matches Err(e) ==> section(input@, pos as int, so_far@) == Err::<
            (DomainView, int),
            _,
        >((e.0@, e.1)),
{
    let inner = parse_open(input, pos)?;
    let (found, end) = parse_section_body(input, inner, so_far)?;
    let stop = parse_close(input, end)?;
    Ok((found, stop))
}

/// Parses the head of a domain file.
pub fn parse_head(input: &[u8]) -> (out: Result<(String, usize), (String, Span)>)
    ensures
        out matches Ok(r) ==> head(input@) == Ok::<_, Fail>((r.0@, r.1 as int)) && r.1
            <= input@.len(),
        out matches Err(e) ==> head(input@) == Err::<(Seq<char>, int), _>((e.0@, e.1)),
{
    let first = parse_open(input, 0)?;
    let defined = match parse_keyword(input, first, "define") {
        Some(end) => end,
        None => {
            return Err(fail_at(input, first));
        },
    };
    let second = parse_open(input, defined)?;
    let tagged = match parse_keyword(input, second, "domain") {
        Some(end) => end,
        None => {
            return Err(fail_at(input, second));
        },
    };
    let at = multispace0(input, tagged);
    match parse_named(input, at) {
        Some((name, end)) => {
            let stop = parse_close(input, end)?;
            Ok((name, stop))
        },
        None => Err(fail_at(input, at)),
    }
}

/// Parses a domain whose comments are blanked already.
pub fn parse_clean(input: &[u8]) -> (out: Result<Domain, (String, Span)>)
    ensures
        out matches Ok(d) ==> clean_domain(input@) == Ok::<_, Fail>(d@),
        out matches Err(e) ==> clean_domain(input@) == Err::<DomainView, _>((e.0@, e.1)),
{
    let (name, start) = parse_head(input)?;
    let mut current = Domain {
        name,
        requirements: Vec::new(),
        types: Vec::new(),
        constants: Vec::new(),
        predicates: Vec::new(),
        actions: Vec::new(),
    };
    proof {
        assert(current@.requirements =~= Seq::<Seq<char>>::empty());
        assert(current@.types =~= Seq::<ParameterView>::empty());
        assert(current@.constants =~= Seq::<ParameterView>::empty());
        assert(current@.predicates =~= Seq::<TermView>::empty());
        assert(current@.actions =~= Seq::<ActionView>::empty());
    }
    proof {
        assert(current@ == named_only(current.name@));
    }
    let mut cur: usize = start;
    loop
        invariant
            cur <= input@.len(),
            clean_domain(input@) == sections(input@, cur as int, current@),
        decreases input@.len() - cur,
    {
        let at = multispace0(input, cur);
        if at < input.len() && input[at] == 41 {
            return Ok(current);
        }
        match parse_section(input, cur, current) {
            Ok((found, end)) => {
                current = found;
                cur = end;
            },
            Err(e) => {
                return Err(e);
            },
        }
    }
}

/// Parses a domain file, or says where and why it is none.
pub fn parse_domain(input: &str) -> (out: Result<Domain, (String, Span)>)
    ensures
        out matches Ok(d) ==> domain(input.spec_bytes()) == Ok::<_, Fail>(d@),
        out matches Err(e) ==> domain(input.spec_bytes()) == Err::<DomainView, _>((e.0@, e.1)),
{
    let clean = remove_comments(input.as_bytes());
    parse_clean(clean.as_slice())
}


/// Parses a domain file that is known to be one.
pub fn parse(input: &str) -> (out: Domain)
    requires
        domain(input.spec_bytes()) is Ok,
    ensures
        domain(input.spec_bytes()) == Ok::<_, Fail>(out@),
{
    match parse_domain(input) {
        Ok(found) => found,
        Err(_) => vstd::pervasive::unreached(),
    }
}

} // verus!
