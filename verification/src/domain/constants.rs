//! The constants section of a domain.

use vstd::prelude::*;
use vstd::string::StringSliceAdditionalSpecFns;
use crate::domain::parameter::{
    parameter_views, parameters, parse_parameters_at, ParameterView, Parameters,
};
use crate::shared::{
    fail_at, multispace0, parse_tag, remainder, skip_multispace, tag_at, unexpected, Fail, Span,
};

verus! {

/// The tag `:constants` after optional whitespace, then a parameter list.
pub open spec fn constants(s: Seq<u8>, pos: int) -> Result<(Seq<ParameterView>, int), Fail> {
    let at = skip_multispace(s, pos);
    match tag_at(s, at, "constants"@) {
        Some(end) => Ok(parameters(s, skip_multispace(s, end))),
        None => Err(unexpected(s, at)),
    }
}

/// Parses a constants section without its parentheses, and hands back what
/// is left of the input behind it.
pub fn parse_constants<'a>(input: &'a str) -> (out: Result<
    (&'a [u8], Parameters),
    (String, Span),
>)
    ensures
        out matches Ok(r) ==> constants(input.spec_bytes(), 0) matches Ok(found)
            && parameter_views(r.1@) == found.0 && r.0@ == input.spec_bytes().skip(found.1),
        out matches Err(e) ==> constants(input.spec_bytes(), 0) == Err::<
            (Seq<ParameterView>, int),
            _,
        >((e.0@, e.1)),
{
    let bytes = input.as_bytes();
    let at = multispace0(bytes, 0);
    match parse_tag(bytes, at, "constants") {
        Some(end) => {
            let start = multispace0(bytes, end);
            let (found, stop) = parse_parameters_at(bytes, start);
            Ok((remainder(bytes, stop), found))
        },
        None => Err(fail_at(bytes, at)),
    }
}

} // verus!
