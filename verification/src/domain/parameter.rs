//! Parameter lists: names in groups, each group untyped, typed, or typed
//! by a union of types.

use vstd::prelude::*;
use vstd::string::{StringExecFns, StringSliceAdditionalSpecFns};
use vstd::utf8::encode_utf8;
use crate::shared::{
    char_span, copy_names, is_name_char, is_name_start_byte, listed, multispace0, named, names,
    parse_named, parse_names, push_listed, remainder, same_word, scan_char, scan_name,
    skip_multispace, strings, word_is, Fail, Span,
};
use crate::written::{
    are_names, ascii, bytes_of, holds, is_name, lemma_ascii_bytes, lemma_ascii_join,
    lemma_holds_split, lemma_listed_ascii, lemma_listed_names, lemma_named_found, lemma_no_space,
    lemma_one_space,
};

verus! {

/// One declared parameter: a name alone, a name with its type, or a name
/// with the union of types it ranges over.
#[derive(Debug, PartialEq, Eq, Clone, Hash)]
pub enum Parameter {
    Untyped { name: String },
    Typed { name: String, typename: String },
    Either { name: String, type_names: Vec<String> },
}

/// A row of parameters.
pub type Parameters = Vec<Parameter>;

/// What a `Parameter` holds, as text.
pub enum ParameterView {
    Untyped { name: Seq<char> },
    Typed { name: Seq<char>, typename: Seq<char> },
    Either { name: Seq<char>, type_names: Seq<Seq<char>> },
}

impl View for Parameter {
    type V = ParameterView;

    open spec fn view(&self) -> ParameterView {
        match self {
            Parameter::Untyped { name } => ParameterView::Untyped { name: name@ },
            Parameter::Typed { name, typename } => ParameterView::Typed {
                name: name@,
                typename: typename@,
            },
            Parameter::Either { name, type_names } => ParameterView::Either {
                name: name@,
                type_names: strings(type_names@),
            },
        }
    }
}

/// The views of a sequence of parameters.
pub open spec fn parameter_views(v: Seq<Parameter>) -> Seq<ParameterView> {
    Seq::new(v.len(), |i: int| v[i]@)
}

/// How a group of names is typed.
pub enum Typing {
    Untyped,
    Typed(Seq<char>),
    Either(Seq<Seq<char>>),
}

/// One parameter, typed as its group is.
pub open spec fn typed_as(name: Seq<char>, typing: Typing) -> ParameterView {
    match typing {
        Typing::Untyped => ParameterView::Untyped { name },
        Typing::Typed(typename) => ParameterView::Typed { name, typename },
        Typing::Either(type_names) => ParameterView::Either { name, type_names },
    }
}

/// One parameter per name of a group, each with the whole typing.
pub open spec fn expand(group: Seq<Seq<char>>, typing: Typing) -> Seq<ParameterView> {
    Seq::new(group.len(), |i: int| typed_as(group[i], typing))
}

/// A union of types at `pos`: `(either T1 T2 ...)` with at least one type,
/// and the position behind its closing parenthesis.
pub open spec fn either(s: Seq<u8>, pos: int) -> Option<(Seq<Seq<char>>, int)> {
    if 0 <= pos < s.len() && s[pos] == 40 {
        let at = skip_multispace(s, pos + 1);
        match named(s, at) {
            Some((_, end)) => {
                let types = names(s, end);
                let close = skip_multispace(s, types.1);
                if same_word(s.subrange(at, end), "either"@) && types.0.len() > 0 && close
                    < s.len() && s[close] == 41 {
                    Some((types.0, close + 1))
                } else {
                    None
                }
            },
            None => None,
        }
    } else {
        None
    }
}

/// The typing that follows the names of a group which end at `pos`, and
/// where it ends: `- (either ...)`, `- type`, or nothing. A `-` that no type
/// follows is left unread.
pub open spec fn typing(s: Seq<u8>, pos: int) -> (Typing, int) {
    let dash = skip_multispace(s, pos);
    if 0 <= dash < s.len() && s[dash] == 45 {
        let at = skip_multispace(s, dash + 1);
        match either(s, at) {
            Some((types, end)) => (Typing::Either(types), end),
            None => match named(s, at) {
                Some((typename, end)) => (Typing::Typed(typename), end),
                None => (Typing::Untyped, pos),
            },
        }
    } else {
        (Typing::Untyped, pos)
    }
}

/// One group at `pos`: one or more names and their typing, expanded to one
/// parameter per name, with the position behind the whitespace after it.
pub open spec fn group(s: Seq<u8>, pos: int) -> Option<(Seq<ParameterView>, int)> {
    let found = names(s, pos);
    if found.0.len() == 0 {
        None
    } else {
        let how = typing(s, found.1);
        Some((expand(found.0, how.0), skip_multispace(s, how.1)))
    }
}

/// The parameters of all the groups from `pos` on, in order, and the
/// position where no further group starts.
pub open spec fn parameters(s: Seq<u8>, pos: int) -> (Seq<ParameterView>, int)
    decreases s.len() - pos,
{
    match group(s, pos) {
        Some((first, end)) if pos < end <= s.len() => {
            let rest = parameters(s, end);
            (first + rest.0, rest.1)
        },
        _ => (Seq::empty(), pos),
    }
}

/// A group of k names yields k parameters, one for each name in order,
/// and each carries the whole typing of the group.
pub proof fn lemma_group_expands(s: Seq<u8>, pos: int)
    requires
        group(s, pos) is Some,
    ensures
        group(s, pos)->Some_0.0.len() == names(s, pos).0.len(),
        forall|i: int|
            0 <= i < names(s, pos).0.len() ==> #[trigger] group(s, pos)->Some_0.0[i] == typed_as(
                names(s, pos).0[i],
                typing(s, names(s, pos).1).0,
            ),
{
}

/// A typing as it is written behind the names of its group: nothing,
/// ` - type`, or ` - (either type ...)`.
pub open spec fn typing_text(how: Typing) -> Seq<char> {
    match how {
        Typing::Untyped => Seq::empty(),
        Typing::Typed(typename) => " - "@ + typename,
        Typing::Either(type_names) => " - (either"@ + listed(type_names) + ")"@,
    }
}

/// A group as it is written: its names, each after one space, then its
/// typing.
pub open spec fn group_text(group: Seq<Seq<char>>, how: Typing) -> Seq<char> {
    listed(group) + typing_text(how)
}

/// Whether the typing can be written and read back: its types are names,
/// and a union holds at least one.
pub open spec fn writable_typing(how: Typing) -> bool {
    match how {
        Typing::Untyped => true,
        Typing::Typed(typename) => is_name(typename),
        Typing::Either(type_names) => type_names.len() > 0 && are_names(type_names),
    }
}

/// Behind the last group of the input no further group is found.
proof fn lemma_no_more_groups(s: Seq<u8>)
    ensures
        parameters(s, s.len() as int) == (Seq::<ParameterView>::empty(), s.len() as int),
{
    lemma_no_space(s, s.len() as int);
}

/// A written typing behind the names of a group, at the end of the input,
/// is read as that typing.
proof fn lemma_typing_read(s: Seq<u8>, pos: int, how: Typing)
    requires
        writable_typing(how),
        holds(s, pos, typing_text(how)),
        pos + typing_text(how).len() == s.len(),
    ensures
        typing(s, pos) == (how, s.len() as int),
        pos == s.len() || !is_name_char(s[pos]),
        named(s, skip_multispace(s, pos)) is None,
{
    reveal_strlit(" - ");
    reveal_strlit(" - (either");
    reveal_strlit(")");
    reveal_strlit(" ");
    reveal_strlit("either");
    match how {
        Typing::Untyped => {
            lemma_no_space(s, pos);
        },
        Typing::Typed(typename) => {
            lemma_holds_split(s, pos, " - "@, typename);
            assert(s[pos + 0] == " - "@[0] as u8);
            assert(s[pos + 1] == " - "@[1] as u8);
            assert(s[pos + 2] == " - "@[2] as u8);
            assert(s[pos + 3 + 0] == typename[0] as u8);
            lemma_one_space(s, pos);
            lemma_one_space(s, pos + 2);
            lemma_named_found(s, pos + 3, typename);
        },
        Typing::Either(type_names) => {
            let row = listed(type_names);
            let close = pos + 10 + row.len();
            lemma_holds_split(s, pos, " - (either"@ + row, ")"@);
            lemma_holds_split(s, pos, " - (either"@, row);
            assert(s[pos + 0] == " - (either"@[0] as u8);
            assert(s[pos + 1] == " - (either"@[1] as u8);
            assert(s[pos + 2] == " - (either"@[2] as u8);
            assert(s[pos + 3] == " - (either"@[3] as u8);
            assert(holds(s, pos + 4, "either"@)) by {
                assert forall|k: int| 0 <= k < 6 implies s[pos + 4 + k] == #[trigger] "either"@[k]
                    as u8 by {
                    assert(s[pos + (4 + k)] == " - (either"@[4 + k] as u8);
                }
            }
            assert(s[close + 0] == ")"@[0] as u8);
            assert(row =~= " "@ + type_names[0] + listed(type_names.drop_first()));
            assert(s[pos + 10 + 0] == row[0] as u8);
            assert(is_name("either"@));
            lemma_one_space(s, pos);
            lemma_one_space(s, pos + 2);
            lemma_no_space(s, pos + 4);
            lemma_named_found(s, pos + 4, "either"@);
            lemma_no_space(s, close);
            lemma_listed_names(s, pos + 10, type_names);
            assert(same_word(s.subrange(pos + 4, pos + 10), "either"@)) by {
                let w = s.subrange(pos + 4, pos + 10);
                assert forall|i: int| 0 <= i < w.len() implies crate::shared::fold(#[trigger] w[i])
                    == crate::shared::fold("either"@[i] as u8) by {
                    assert(s[pos + 4 + i] == "either"@[i] as u8);
                }
            }
            assert(either(s, pos + 3) == Some((type_names, close + 1)));
        },
    }
}

/// A group of k names and its typing, written, is read as k parameters in
/// the order of the names, each with the whole typing, and nothing is left
/// over.
pub proof fn lemma_group_read(row: Seq<Seq<char>>, how: Typing)
    requires
        row.len() > 0,
        are_names(row),
        writable_typing(how),
    ensures
        parameters(encode_utf8(group_text(row, how)), 0) == (
            expand(row, how),
            group_text(row, how).len() as int,
        ),
        expand(row, how).len() == row.len(),
{
    reveal_strlit(" - ");
    reveal_strlit(" - (either");
    reveal_strlit(")");
    reveal_strlit(" ");
    let names_text = listed(row);
    let written = group_text(row, how);
    lemma_listed_ascii(row);
    match how {
        Typing::Untyped => {},
        Typing::Typed(typename) => {
            assert(ascii(" - "@));
            lemma_ascii_join(" - "@, typename);
        },
        Typing::Either(type_names) => {
            lemma_listed_ascii(type_names);
            assert(ascii(" - (either"@) && ascii(")"@));
            lemma_ascii_join(" - (either"@, listed(type_names));
            lemma_ascii_join(" - (either"@ + listed(type_names), ")"@);
        },
    }
    lemma_ascii_join(names_text, typing_text(how));
    lemma_ascii_bytes(written);
    let s = bytes_of(written);
    let end = names_text.len() as int;
    assert(holds(s, 0, written));
    lemma_holds_split(s, 0, names_text, typing_text(how));
    lemma_typing_read(s, end, how);
    lemma_listed_names(s, 0, row);
    assert(names_text =~= " "@ + row[0] + listed(row.drop_first()));
    lemma_no_space(s, s.len() as int);
    lemma_no_more_groups(s);
    assert(group(s, 0) == Some((expand(row, how), s.len() as int)));
    assert(expand(row, how) + Seq::<ParameterView>::empty() =~= expand(row, how));
}

/// What `parse_either` found, for contracts.
pub open spec fn found_types(r: Option<(Vec<String>, usize)>) -> Option<(Seq<Seq<char>>, int)> {
    match r {
        Some((types, end)) => Some((strings(types@), end as int)),
        None => None,
    }
}

/// Parses a union of types.
pub fn parse_either(input: &[u8], pos: usize) -> (out: Option<(Vec<String>, usize)>)
    requires
        pos <= input@.len(),
    ensures
        found_types(out) == either(input@, pos as int),
        out matches Some(r) ==> pos < r.1 <= input@.len(),
{
    if !(pos < input.len() && input[pos] == 40) {
        return None;
    }
    let at = multispace0(input, pos + 1);
    if !(at < input.len() && is_name_start_byte(input[at])) {
        return None;
    }
    let end = scan_name(input, at + 1);
    let (types, stop) = parse_names(input, end);
    let close = multispace0(input, stop);
    if word_is(input, at, end, "either") && types.len() > 0 && close < input.len() && input[close]
        == 41 {
        Some((types, close + 1))
    } else {
        None
    }
}

/// A typing as it is held while a group is expanded.
pub enum Held {
    Untyped,
    Typed(String),
    Either(Vec<String>),
}

impl View for Held {
    type V = Typing;

    open spec fn view(&self) -> Typing {
        match self {
            Held::Untyped => Typing::Untyped,
            Held::Typed(typename) => Typing::Typed(typename@),
            Held::Either(type_names) => Typing::Either(strings(type_names@)),
        }
    }
}

/// Parses the typing that follows the names of a group.
pub fn parse_typing(input: &[u8], pos: usize) -> (out: (Held, usize))
    requires
        pos <= input@.len(),
    ensures
        (out.0@, out.1 as int) == typing(input@, pos as int),
        pos <= out.1 <= input@.len(),
{
    let dash = multispace0(input, pos);
    if dash < input.len() && input[dash] == 45 {
        let at = multispace0(input, dash + 1);
        match parse_either(input, at) {
            Some((types, end)) => (Held::Either(types), end),
            None => match parse_named(input, at) {
                Some((typename, end)) => (Held::Typed(typename), end),
                None => (Held::Untyped, pos),
            },
        }
    } else {
        (Held::Untyped, pos)
    }
}

/// Appends one parameter per name of the group, each with the typing.
pub fn push_group(done: &mut Vec<Parameter>, group: Vec<String>, how: &Held)
    ensures
        parameter_views(final(done)@) == parameter_views(old(done)@) + expand(
            strings(group@),
            how@,
        ),
{
    let mut i: usize = 0;
    while i < group.len()
        invariant
            0 <= i <= group@.len(),
            parameter_views(done@) == parameter_views(old(done)@) + expand(
                strings(group@),
                how@,
            ).take(i as int),
        decreases group@.len() - i,
    {
        let ghost before = done@;
        let name = group[i].clone();
        let parameter = match how {
            Held::Untyped => Parameter::Untyped { name },
            Held::Typed(typename) => Parameter::Typed { name, typename: typename.clone() },
            Held::Either(type_names) => Parameter::Either {
                name,
                type_names: copy_names(type_names),
            },
        };
        done.push(parameter);
        i += 1;
        proof {
            let all = expand(strings(group@), how@);
            assert(parameter_views(done@) =~= parameter_views(before).push(all[i - 1]));
            assert(all.take(i as int) =~= all.take(i - 1).push(all[i - 1]));
            assert(parameter_views(done@) =~= parameter_views(old(done)@) + all.take(i as int));
        }
    }
    proof {
        let all = expand(strings(group@), how@);
        assert(all.take(i as int) =~= all);
    }
}

/// Parses the parameter groups that start at `pos`.
pub fn parse_parameters_at(input: &[u8], pos: usize) -> (out: (Parameters, usize))
    requires
        pos <= input@.len(),
    ensures
        (parameter_views(out.0@), out.1 as int) == parameters(input@, pos as int),
        pos <= out.1 <= input@.len(),
{
    let mut done: Vec<Parameter> = Vec::new();
    let mut cur: usize = pos;
    loop
        invariant
            pos <= cur <= input@.len(),
            parameters(input@, pos as int) == (
                parameter_views(done@) + parameters(input@, cur as int).0,
                parameters(input@, cur as int).1,
            ),
        decreases input@.len() - cur,
    {
        let (group, after) = parse_names(input, cur);
        if group.len() == 0 {
            proof {
                assert(parameter_views(done@) + Seq::<ParameterView>::empty() =~= parameter_views(
                    done@,
                ));
            }
            return (done, cur);
        }
        let (how, stop) = parse_typing(input, after);
        let end = multispace0(input, stop);
        proof {
            crate::shared::lemma_names_advance(input@, cur as int);
            let first = expand(strings(group@), how@);
            let rest = parameters(input@, end as int);
            assert((parameter_views(done@) + first) + rest.0 =~= parameter_views(done@) + (first
                + rest.0));
        }
        push_group(&mut done, group, &how);
        cur = end;
    }
}


/// A parameter list that is to be whole: the groups from `pos` on, with no
/// `-` left behind them, which would be a separator without its type.
pub open spec fn whole_parameters(s: Seq<u8>, pos: int) -> Result<(Seq<ParameterView>, int), Fail> {
    let found = parameters(s, pos);
    let at = skip_multispace(s, found.1);
    if 0 <= at < s.len() && s[at] == 45 {
        Err(("errant type separator"@, char_span(s, at)))
    } else {
        Ok(found)
    }
}

/// Parses a parameter list that is to be whole.
pub fn parse_whole_parameters(input: &[u8], pos: usize) -> (out: Result<
    (Parameters, usize),
    (String, Span),
>)
    requires
        pos <= input@.len(),
    ensures
        out matches Ok(r) ==> whole_parameters(input@, pos as int) == Ok::<_, Fail>(
            (parameter_views(r.0@), r.1 as int),
        ) && pos <= r.1 <= input@.len(),
        out matches Err(e) ==> whole_parameters(input@, pos as int) == Err::<
            (Seq<ParameterView>, int),
            _,
        >((e.0@, e.1)),
{
    let (found, end) = parse_parameters_at(input, pos);
    let at = multispace0(input, end);
    if at < input.len() && input[at] == 45 {
        Err(("errant type separator".to_owned(), Span { start: at, end: scan_char(input, at + 1) }))
    } else {
        Ok((found, end))
    }
}

/// Parses a parameter list. It never fails: it stops where no further group
/// starts, and hands back what is left of the input from there.
pub fn parse_parameters<'a>(input: &'a str) -> (out: Result<
    (&'a [u8], Parameters),
    (String, Span),
>)
    ensures
        out matches Ok(r) && parameter_views(r.1@) == parameters(input.spec_bytes(), 0).0 && r.0@
            == input.spec_bytes().skip(parameters(input.spec_bytes(), 0).1),
{
    let bytes = input.as_bytes();
    let (found, end) = parse_parameters_at(bytes, 0);
    Ok((remainder(bytes, end), found))
}

/// One parameter as it is written: its name, then ` - ` and its type where
/// it has one, a union of types wrapped twice in `(either ...)`.
pub open spec fn parameter_text(p: ParameterView) -> Seq<char> {
    match p {
        ParameterView::Untyped { name } => name,
        ParameterView::Typed { name, typename } => name + " - "@ + typename,
        ParameterView::Either { name, type_names } => name + " - (either (either"@ + listed(
            type_names,
        ) + "))"@,
    }
}

/// Parameters as they are written in a row, one space behind each.
pub open spec fn row_text(row: Seq<ParameterView>) -> Seq<char>
    decreases row.len(),
{
    if row.len() == 0 {
        Seq::empty()
    } else {
        parameter_text(row[0]) + " "@ + row_text(row.drop_first())
    }
}

/// Writes a parameter list: a space, then each parameter and a space.
pub fn parameters_to_string(parameters: &Parameters) -> (out: String)
    ensures
        out@ == " "@ + row_text(parameter_views(parameters@)),
{
    let mut out = " ".to_owned();
    let mut i: usize = 0;
    proof {
        assert(parameter_views(parameters@).skip(0) =~= parameter_views(parameters@));
    }
    while i < parameters.len()
        invariant
            0 <= i <= parameters@.len(),
            out@ + row_text(parameter_views(parameters@).skip(i as int)) == " "@ + row_text(
                parameter_views(parameters@),
            ),
        decreases parameters@.len() - i,
    {
        let ghost before = out@;
        let ghost rest = parameter_views(parameters@).skip(i as int);
        match &parameters[i] {
            Parameter::Untyped { name } => {
                out.append(name.as_str());
            },
            Parameter::Typed { name, typename } => {
                out.append(name.as_str());
                out.append(" - ");
                out.append(typename.as_str());
            },
            Parameter::Either { name, type_names } => {
                out.append(name.as_str());
                out.append(" - (either (either");
                push_listed(&mut out, type_names);
                out.append("))");
            },
        }
        out.append(" ");
        i += 1;
        proof {
            assert(rest.drop_first() =~= parameter_views(parameters@).skip(i as int));
            assert(rest[0] == parameters@[i - 1]@);
            assert(out@ =~= before + (parameter_text(rest[0]) + " "@));
            assert(out@ + row_text(rest.drop_first()) =~= before + row_text(rest));
        }
    }
    proof {
        assert(row_text(parameter_views(parameters@).skip(i as int)) =~= Seq::<char>::empty());
        assert(out@ + Seq::<char>::empty() =~= out@);
    }
    out
}

} // verus!
