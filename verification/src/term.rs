//! The call form `name arg1 arg2 ...` that predicates and plan steps share.

use vstd::prelude::*;
use crate::shared::{
    fail_at, multispace0, named, names, parse_named, parse_names, skip_multispace, strings,
    unexpected, Fail, Span,
};

verus! {

/// A name applied to a sequence of names.
#[derive(Debug, PartialEq, Eq, Clone, Hash)]
pub struct Term {
    pub name: String,
    pub parameters: Vec<String>,
}

/// What a `Term` holds, as text.
pub struct TermView {
    pub name: Seq<char>,
    pub parameters: Seq<Seq<char>>,
}

impl View for Term {
    type V = TermView;

    open spec fn view(&self) -> TermView {
        TermView { name: self.name@, parameters: strings(self.parameters@) }
    }
}

/// The views of a sequence of terms.
pub open spec fn terms(v: Seq<Term>) -> Seq<TermView> {
    Seq::new(v.len(), |i: int| v[i]@)
}

/// A term at `pos`: a name after optional whitespace, then zero or more
/// names. It ends behind the last name.
pub open spec fn term(s: Seq<u8>, pos: int) -> Result<(TermView, int), Fail> {
    let at = skip_multispace(s, pos);
    match named(s, at) {
        Some((name, end)) => {
            let rest = names(s, end);
            Ok((TermView { name, parameters: rest.0 }, rest.1))
        },
        None => Err(unexpected(s, at)),
    }
}

/// Parses a term.
pub fn parse_term(input: &[u8], pos: usize) -> (out: Result<(Term, usize), (String, Span)>)
    requires
        pos <= input@.len(),
    ensures
        out matches Ok(r) ==> term(input@, pos as int) == Ok::<_, Fail>((r.0@, r.1 as int)) && pos
            < r.1 <= input@.len(),
        out matches Err(e) ==> term(input@, pos as int) == Err::<(TermView, int), _>((e.0@, e.1)),
{
    let at = multispace0(input, pos);
    match parse_named(input, at) {
        Some((name, end)) => {
            let (parameters, stop) = parse_names(input, end);
            Ok((Term { name, parameters }, stop))
        },
        None => Err(fail_at(input, at)),
    }
}

} // verus!
