//! Plan files: a row of steps, each an action applied to arguments.

use vstd::prelude::*;
use vstd::string::StringSliceAdditionalSpecFns;
use vstd::utf8::encode_utf8;
use crate::problem::token::{
    arguments, call, keyword, lemma_call_advances, lemma_scan_advances, lemma_scan_skips,
    lemma_trivia_end, lexeme_text, next_token, parse_call, scan, skip_trivia, stop, stopped, Kind,
    Token,
};
use crate::shared::{end_span, is_multispace, is_name_char, listed, prepend, strings, Fail, Span};
use crate::written::{
    are_names, ascii, bytes_of, holds, is_name, lemma_ascii_bytes, lemma_ascii_join,
    lemma_holds_split, lemma_listed_ascii, lemma_named_found,
};

verus! {

/// A single step of a plan: an action and its arguments.
pub type Step = (String, Vec<String>);

/// A sequence of steps.
pub type Plan = Vec<Step>;

/// What a step holds, as text.
pub type StepView = (Seq<char>, Seq<Seq<char>>);

/// The views of a sequence of steps.
pub open spec fn steps(v: Seq<Step>) -> Seq<StepView> {
    Seq::new(v.len(), |i: int| (v[i].0@, strings(v[i].1@)))
}

/// The steps from `pos` to the end of the input. Each step stands in
/// parentheses: an action name, then argument names. Whitespace and comments
/// between and inside steps do not count; anything else is an error.
pub open spec fn plan(s: Seq<u8>, pos: int) -> Result<(Seq<StepView>, int), Fail>
    decreases s.len() - pos,
{
    let l = scan(s, pos);
    match l.kind {
        Kind::End => Ok((Seq::empty(), l.span.end as int)),
        Kind::Found(Token::LParen) => match call(s, l.span.end as int) {
            Ok((first, end)) => if pos < end <= s.len() {
                prepend(seq![first], plan(s, end))
            } else {
                Err(stop(l))
            },
            Err(f) => Err(f),
        },
        _ => Err(stop(l)),
    }
}

/// The steps of a whole plan file.
pub open spec fn whole_plan(s: Seq<u8>) -> Result<Seq<StepView>, Fail> {
    match plan(s, 0) {
        Ok((found, _)) => Ok(found),
        Err(f) => Err(f),
    }
}

/// Whitespace and comments before a step do not count: what is read from
/// a position is what is read from behind the whitespace and comments that
/// start there.
pub proof fn lemma_space_between_steps(s: Seq<u8>, pos: int)
    requires
        0 <= pos <= s.len() <= usize::MAX,
    ensures
        plan(s, pos) == plan(s, skip_trivia(s, pos)),
{
    let at = skip_trivia(s, pos);
    lemma_trivia_end(s, pos);
    lemma_scan_skips(s, pos);
    lemma_scan_advances(s, pos);
    let l = scan(s, pos);
    if l.kind == Kind::Found(Token::LParen) {
        lemma_call_advances(s, l.span.end as int);
    }
}

/// A plan is accepted only when the whole input was read: nothing is left
/// behind the last step that was found.
pub proof fn lemma_plan_reads_all(s: Seq<u8>, pos: int)
    requires
        0 <= pos <= s.len() <= usize::MAX,
    ensures
        plan(s, pos) matches Ok(found) ==> found.1 == s.len(),
    decreases s.len() - pos,
{
    lemma_scan_advances(s, pos);
    let l = scan(s, pos);
    if l.kind == Kind::Found(Token::LParen) {
        lemma_call_advances(s, l.span.end as int);
        if let Ok((first, end)) = call(s, l.span.end as int) {
            lemma_plan_reads_all(s, end);
        }
    }
}

/// Parses one step behind its opening parenthesis.
pub fn parse_step(input: &[u8], pos: usize) -> (out: Result<(Step, usize), (String, Span)>)
    requires
        pos <= input@.len(),
    ensures
        out matches Ok(r) ==> call(input@, pos as int) == Ok::<_, Fail>(
            ((r.0.0@, strings(r.0.1@)), r.1 as int),
        ) && pos < r.1 <= input@.len(),
        out matches Err(e) ==> call(input@, pos as int) == Err::<(StepView, int), _>((e.0@, e.1)),
{
    parse_call(input, pos)
}

/// Parses the steps of a whole plan file.
pub fn parse_plan(input: &[u8]) -> (out: Result<Plan, (String, Span)>)
    ensures
        out matches Ok(p) ==> whole_plan(input@) == Ok::<_, Fail>(steps(p@)),
        out matches Err(e) ==> whole_plan(input@) == Err::<Seq<StepView>, _>((e.0@, e.1)),
{
    let mut found: Vec<Step> = Vec::new();
    let mut cur: usize = 0;
    loop
        invariant
            cur <= input@.len(),
            plan(input@, 0) == prepend(steps(found@), plan(input@, cur as int)),
        decreases input@.len() - cur,
    {
        let l = next_token(input, cur);
        match l.kind {
            Kind::End => {
                proof {
                    assert(steps(found@) + Seq::<StepView>::empty() =~= steps(found@));
                }
                return Ok(found);
            },
            Kind::Found(Token::LParen) => {
                match parse_step(input, l.span.end) {
                    Ok((first, end)) => {
                        proof {
                            if let Ok((more, stop)) = plan(input@, end as int) {
                                assert(steps(found@.push(first)) + more =~= steps(found@) + (seq![
                                    (first.0@, strings(first.1@)),
                                ] + more));
                            }
                        }
                        found.push(first);
                        cur = end;
                    },
                    Err(e) => {
                        return Err(e);
                    },
                }
            },
            _ => {
                return Err(stopped(l));
            },
        }
    }
}

/// Parses a plan file, or says where and why it is none.
pub fn try_parse(input: &str) -> (out: Result<Plan, (String, Span)>)
    ensures
        out matches Ok(p) ==> whole_plan(input.spec_bytes()) == Ok::<_, Fail>(steps(p@)),
        out matches Err(e) ==> whole_plan(input.spec_bytes()) == Err::<Seq<StepView>, _>(
            (e.0@, e.1),
        ),
{
    parse_plan(input.as_bytes())
}


/// Parses a plan file that is known to be one.
pub fn parse(input: &str) -> (out: Plan)
    requires
        whole_plan(input.spec_bytes()) is Ok,
    ensures
        whole_plan(input.spec_bytes()) == Ok::<_, Fail>(steps(out@)),
{
    match try_parse(input) {
        Ok(found) => found,
        Err(_) => vstd::pervasive::unreached(),
    }
}


/// Whether the text is made of whitespace only.
pub open spec fn blank(gap: Seq<char>) -> bool {
    forall|k: int| 0 <= k < gap.len() ==> (#[trigger] gap[k] as int) < 128 && is_multispace(gap[k] as u8)
}

/// Whether every text of the row is made of whitespace only.
pub open spec fn blanks(gaps: Seq<Seq<char>>) -> bool {
    forall|i: int| 0 <= i < gaps.len() ==> blank(#[trigger] gaps[i])
}

/// Whether the text is a name that the lexer takes for no keyword.
pub open spec fn plain_name(n: Seq<char>) -> bool {
    is_name(n) && keyword(bytes_of(n)) == Token::Name
}

/// Whether every text of the row is a name that is no keyword.
pub open spec fn plain_names(row: Seq<Seq<char>>) -> bool {
    forall|i: int| 0 <= i < row.len() ==> plain_name(#[trigger] row[i])
}

/// Whether every step of the plan is made of names that are no keywords.
pub open spec fn plain_steps(steps: Seq<StepView>) -> bool {
    forall|i: int| 0 <= i < steps.len() ==> plain_name(#[trigger] steps[i].0) && plain_names(
        steps[i].1,
    )
}

/// One step as it is written: `(name arg ...)`.
pub open spec fn step_text(step: StepView) -> Seq<char> {
    "("@ + step.0 + listed(step.1) + ")"@
}

/// A plan as it is written with a gap before each step and one behind the
/// last: there is one gap more than there are steps.
pub open spec fn spaced_text(steps: Seq<StepView>, gaps: Seq<Seq<char>>) -> Seq<char>
    decreases steps.len(),
{
    if steps.len() == 0 || gaps.len() == 0 {
        if gaps.len() == 0 {
            Seq::empty()
        } else {
            gaps[0]
        }
    } else {
        gaps[0] + step_text(steps[0]) + spaced_text(steps.drop_first(), gaps.drop_first())
    }
}

/// A gap of whitespace, with something behind it that starts neither
/// whitespace nor a comment, is skipped whole.
proof fn lemma_gap_skipped(s: Seq<u8>, pos: int, gap: Seq<char>)
    requires
        blank(gap),
        holds(s, pos, gap),
        pos + gap.len() == s.len() || (!is_multispace(s[pos + gap.len()]) && s[pos + gap.len()] != 59),
    ensures
        skip_trivia(s, pos) == pos + gap.len(),
    decreases gap.len(),
{
    if gap.len() > 0 {
        let rest = gap.drop_first();
        assert(s[pos + 0] == gap[0] as u8);
        assert(holds(s, pos + 1, rest)) by {
            assert forall|k: int| 0 <= k < rest.len() implies s[pos + 1 + k] == #[trigger] rest[k]
                as u8 by {
                assert(s[pos + (k + 1)] == gap[k + 1] as u8);
            }
        }
        assert(blank(rest)) by {
            assert forall|k: int| 0 <= k < rest.len() implies (#[trigger] rest[k] as int) < 128
                && is_multispace(rest[k] as u8) by {
                assert(rest[k] == gap[k + 1]);
            }
        }
        lemma_gap_skipped(s, pos + 1, rest);
    }
}

/// A name that is no keyword, with no name character behind it, is the
/// name token found where it stands.
proof fn lemma_name_token(s: Seq<u8>, from: int, at: int, n: Seq<char>)
    requires
        s.len() <= usize::MAX,
        plain_name(n),
        holds(s, at, n),
        at + n.len() == s.len() || !is_name_char(s[at + n.len()]),
        skip_trivia(s, from) == at,
    ensures
        scan(s, from).kind == Kind::Found(Token::Name),
        scan(s, from).span == (Span { start: at as usize, end: (at + n.len()) as usize }),
        lexeme_text(s, scan(s, from)) == n,
{
    lemma_named_found(s, at, n);
    assert(s[at + 0] == n[0] as u8);
    assert(s.subrange(at, at + n.len()) =~= bytes_of(n)) by {
        assert forall|i: int| 0 <= i < n.len() implies s.subrange(at, at + n.len())[i] == bytes_of(
            n,
        )[i] by {
            assert(s[at + i] == n[i] as u8);
        }
    }
}

/// Arguments written in a row and closed by a parenthesis are read back.
proof fn lemma_arguments_read(s: Seq<u8>, pos: int, row: Seq<Seq<char>>)
    requires
        s.len() <= usize::MAX,
        plain_names(row),
        holds(s, pos, listed(row) + ")"@),
    ensures
        arguments(s, pos) == Ok::<_, Fail>((row, pos + listed(row).len() + 1)),
    decreases row.len(),
{
    reveal_strlit(" ");
    reveal_strlit(")");
    lemma_holds_split(s, pos, listed(row), ")"@);
    if row.len() == 0 {
        assert(s[pos + 0] == ")"@[0] as u8);
        assert(row =~= Seq::<Seq<char>>::empty());
    } else {
        let first = row[0];
        let rest = row.drop_first();
        let all = listed(row);
        let tail = listed(rest);
        let close = pos + all.len();
        assert(all =~= " "@ + first + tail);
        assert(plain_name(first));
        assert(plain_names(rest)) by {
            assert forall|i: int| 0 <= i < rest.len() implies plain_name(#[trigger] rest[i]) by {
                assert(rest[i] == row[i + 1]);
            }
        }
        lemma_holds_split(s, pos, " "@ + first, tail);
        lemma_holds_split(s, pos, " "@, first);
        let at = pos + 1;
        let end = at + first.len();
        assert(s[pos + 0] == " "@[0] as u8);
        assert(s[at + 0] == first[0] as u8);
        assert(s[close + 0] == ")"@[0] as u8);
        assert(!is_name_char(s[end])) by {
            if rest.len() > 0 {
                assert(tail =~= " "@ + rest[0] + listed(rest.drop_first()));
                assert(s[end + 0] == tail[0] as u8);
            }
        }
        assert(holds(s, end, tail + ")"@)) by {
            assert forall|k: int| 0 <= k < (tail + ")"@).len() implies s[end + k] == #[trigger] (
            tail + ")"@)[k] as u8 by {
                if k < tail.len() {
                    assert(s[end + k] == tail[k] as u8);
                } else {
                    assert(s[close + 0] == ")"@[0] as u8);
                }
            }
        }
        assert(skip_trivia(s, at) == at);
        assert(skip_trivia(s, pos) == skip_trivia(s, at));
        lemma_name_token(s, pos, at, first);
        lemma_arguments_read(s, end, rest);
        assert(seq![first] + rest =~= row);
    }
}

/// A written step behind its opening parenthesis is read back.
proof fn lemma_step_read(s: Seq<u8>, pos: int, step: StepView)
    requires
        s.len() <= usize::MAX,
        plain_name(step.0),
        plain_names(step.1),
        holds(s, pos, step_text(step)),
    ensures
        scan(s, pos).kind == Kind::Found(Token::LParen),
        scan(s, pos).span.end == pos + 1,
        call(s, pos + 1) == Ok::<_, Fail>((step, pos + step_text(step).len())),
{
    reveal_strlit("(");
    reveal_strlit(")");
    reveal_strlit(" ");
    let row = listed(step.1);
    let at = pos + 1;
    let end = at + step.0.len();
    lemma_holds_split(s, pos, "("@ + step.0 + row, ")"@);
    lemma_holds_split(s, pos, "("@ + step.0, row);
    lemma_holds_split(s, pos, "("@, step.0);
    assert(s[pos + 0] == "("@[0] as u8);
    assert(s[at + 0] == step.0[0] as u8);
    assert(s[end + row.len() + 0] == ")"@[0] as u8);
    assert(!is_name_char(s[end])) by {
        if step.1.len() > 0 {
            assert(row =~= " "@ + step.1[0] + listed(step.1.drop_first()));
            assert(s[end + 0] == row[0] as u8);
        }
    }
    assert(holds(s, end, row + ")"@)) by {
        assert forall|k: int| 0 <= k < (row + ")"@).len() implies s[end + k] == #[trigger] (row
            + ")"@)[k] as u8 by {
            if k < row.len() {
                assert(s[end + k] == row[k] as u8);
            } else {
                assert(s[end + row.len() + 0] == ")"@[0] as u8);
            }
        }
    }
    lemma_name_token(s, at, at, step.0);
    lemma_arguments_read(s, end, step.1);
}

/// A written plan that ends the input is read back, whatever whitespace
/// stands in its gaps.
proof fn lemma_spaced_read(s: Seq<u8>, pos: int, steps: Seq<StepView>, gaps: Seq<Seq<char>>)
    requires
        s.len() <= usize::MAX,
        gaps.len() == steps.len() + 1,
        blanks(gaps),
        plain_steps(steps),
        holds(s, pos, spaced_text(steps, gaps)),
        pos + spaced_text(steps, gaps).len() == s.len(),
    ensures
        plan(s, pos) == Ok::<_, Fail>((steps, s.len() as int)),
    decreases steps.len(),
{
    reveal_strlit("(");
    assert(blank(gaps[0]));
    if steps.len() == 0 {
        lemma_gap_skipped(s, pos, gaps[0]);
        assert(steps =~= Seq::<StepView>::empty());
    } else {
        let gap = gaps[0];
        let first = step_text(steps[0]);
        let rest = steps.drop_first();
        let later = gaps.drop_first();
        let tail = spaced_text(rest, later);
        let at = pos + gap.len();
        let next = at + first.len();
        lemma_holds_split(s, pos, gap + first, tail);
        lemma_holds_split(s, pos, gap, first);
        assert(s[at + 0] == first[0] as u8);
        lemma_gap_skipped(s, pos, gap);
        assert(plain_name(steps[0].0) && plain_names(steps[0].1));
        assert(plain_steps(rest)) by {
            assert forall|i: int| 0 <= i < rest.len() implies plain_name(#[trigger] rest[i].0)
                && plain_names(rest[i].1) by {
                assert(rest[i] == steps[i + 1]);
            }
        }
        assert(blanks(later)) by {
            assert forall|i: int| 0 <= i < later.len() implies blank(#[trigger] later[i]) by {
                assert(later[i] == gaps[i + 1]);
            }
        }
        lemma_step_read(s, at, steps[0]);
        lemma_scan_skips(s, pos);
        lemma_trivia_end(s, pos);
        lemma_spaced_read(s, next, rest, later);
        assert(seq![steps[0]] + rest =~= steps);
    }
}

/// Arguments written in a row up to the end of the input, with no
/// parenthesis to close them, fail at the end of the input.
proof fn lemma_arguments_unclosed(s: Seq<u8>, pos: int, row: Seq<Seq<char>>)
    requires
        s.len() <= usize::MAX,
        plain_names(row),
        holds(s, pos, listed(row)),
        pos + listed(row).len() == s.len(),
    ensures
        arguments(s, pos) == Err::<(Seq<Seq<char>>, int), _>(
            ("unexpected end of input"@, end_span(s)),
        ),
    decreases row.len(),
{
    reveal_strlit(" ");
    if row.len() > 0 {
        let first = row[0];
        let rest = row.drop_first();
        let all = listed(row);
        let tail = listed(rest);
        assert(all =~= " "@ + first + tail);
        assert(plain_name(first));
        assert(plain_names(rest)) by {
            assert forall|i: int| 0 <= i < rest.len() implies plain_name(#[trigger] rest[i]) by {
                assert(rest[i] == row[i + 1]);
            }
        }
        lemma_holds_split(s, pos, " "@ + first, tail);
        lemma_holds_split(s, pos, " "@, first);
        let at = pos + 1;
        let end = at + first.len();
        assert(s[pos + 0] == " "@[0] as u8);
        assert(s[at + 0] == first[0] as u8);
        assert(end == s.len() || !is_name_char(s[end])) by {
            if rest.len() > 0 {
                assert(tail =~= " "@ + rest[0] + listed(rest.drop_first()));
                assert(s[end + 0] == tail[0] as u8);
            }
        }
        assert(skip_trivia(s, at) == at);
        assert(skip_trivia(s, pos) == skip_trivia(s, at));
        lemma_name_token(s, pos, at, first);
        lemma_arguments_unclosed(s, end, rest);
    }
}

/// A plan whose last step is not closed is not accepted: steps written
/// with whatever whitespace around them, then `(`, a name and arguments
/// and the end of the input, fail with the end of the input as their span.
pub proof fn lemma_unclosed_step(steps: Seq<StepView>, gaps: Seq<Seq<char>>, last: StepView)
    requires
        gaps.len() == steps.len() + 1,
        blanks(gaps),
        plain_steps(steps),
        plain_name(last.0),
        plain_names(last.1),
        (spaced_text(steps, gaps) + "("@ + last.0 + listed(last.1)).len() <= usize::MAX,
    ensures
        whole_plan(encode_utf8(spaced_text(steps, gaps) + "("@ + last.0 + listed(last.1))) == Err::<
            Seq<StepView>,
            _,
        >(
            (
                "unexpected end of input"@,
                end_span(encode_utf8(spaced_text(steps, gaps) + "("@ + last.0 + listed(last.1))),
            ),
        ),
{
    reveal_strlit("(");
    let front = spaced_text(steps, gaps);
    let written = front + "("@ + last.0 + listed(last.1);
    lemma_spaced_ascii(steps, gaps);
    assert(are_names(last.1)) by {
        assert forall|i: int| 0 <= i < last.1.len() implies is_name(#[trigger] last.1[i]) by {
            assert(plain_name(last.1[i]));
        }
    }
    lemma_listed_ascii(last.1);
    assert(ascii("("@));
    lemma_ascii_join(front, "("@);
    lemma_ascii_join(front + "("@, last.0);
    lemma_ascii_join(front + "("@ + last.0, listed(last.1));
    lemma_ascii_bytes(written);
    let s = bytes_of(written);
    assert(holds(s, 0, written));
    lemma_unclosed_read(s, 0, steps, gaps, last);
}

/// The steps before an unclosed last step are read, and the last step
/// fails at the end of the input.
proof fn lemma_unclosed_read(
    s: Seq<u8>,
    pos: int,
    steps: Seq<StepView>,
    gaps: Seq<Seq<char>>,
    last: StepView,
)
    requires
        s.len() <= usize::MAX,
        gaps.len() == steps.len() + 1,
        blanks(gaps),
        plain_steps(steps),
        plain_name(last.0),
        plain_names(last.1),
        holds(s, pos, spaced_text(steps, gaps) + "("@ + last.0 + listed(last.1)),
        pos + (spaced_text(steps, gaps) + "("@ + last.0 + listed(last.1)).len() == s.len(),
    ensures
        plan(s, pos) == Err::<(Seq<StepView>, int), _>(("unexpected end of input"@, end_span(s))),
    decreases steps.len(),
{
    reveal_strlit("(");
    reveal_strlit(" ");
    let front = spaced_text(steps, gaps);
    let row = listed(last.1);
    lemma_holds_split(s, pos, front + "("@ + last.0, row);
    lemma_holds_split(s, pos, front + "("@, last.0);
    lemma_holds_split(s, pos, front, "("@);
    assert(blank(gaps[0]));
    if steps.len() == 0 {
        let open = pos + front.len();
        let at = open + 1;
        let end = at + last.0.len();
        assert(s[open + 0] == "("@[0] as u8);
        assert(s[at + 0] == last.0[0] as u8);
        assert(end == s.len() || !is_name_char(s[end])) by {
            if last.1.len() > 0 {
                assert(row =~= " "@ + last.1[0] + listed(last.1.drop_first()));
                assert(s[end + 0] == row[0] as u8);
            }
        }
        lemma_gap_skipped(s, pos, gaps[0]);
        lemma_name_token(s, at, at, last.0);
        lemma_arguments_unclosed(s, end, last.1);
    } else {
        let gap = gaps[0];
        let first = step_text(steps[0]);
        let rest = steps.drop_first();
        let later = gaps.drop_first();
        let tail = spaced_text(rest, later);
        let at = pos + gap.len();
        let next = at + first.len();
        assert(front =~= gap + first + tail);
        lemma_holds_split(s, pos, gap + first, tail);
        lemma_holds_split(s, pos, gap, first);
        assert(s[at + 0] == first[0] as u8);
        lemma_gap_skipped(s, pos, gap);
        assert(plain_name(steps[0].0) && plain_names(steps[0].1));
        assert(plain_steps(rest)) by {
            assert forall|i: int| 0 <= i < rest.len() implies plain_name(#[trigger] rest[i].0)
                && plain_names(rest[i].1) by {
                assert(rest[i] == steps[i + 1]);
            }
        }
        assert(blanks(later)) by {
            assert forall|i: int| 0 <= i < later.len() implies blank(#[trigger] later[i]) by {
                assert(later[i] == gaps[i + 1]);
            }
        }
        let rest_all = tail + "("@ + last.0 + row;
        assert(holds(s, next, rest_all)) by {
            let all = front + "("@ + last.0 + row;
            assert(all =~= (gap + first) + rest_all);
            lemma_holds_split(s, pos, gap + first, rest_all);
        }
        lemma_step_read(s, at, steps[0]);
        lemma_scan_skips(s, pos);
        lemma_trivia_end(s, pos);
        lemma_unclosed_read(s, next, rest, later, last);
    }
}

/// What is written of steps and gaps is ASCII text.
proof fn lemma_spaced_ascii(steps: Seq<StepView>, gaps: Seq<Seq<char>>)
    requires
        gaps.len() == steps.len() + 1,
        blanks(gaps),
        plain_steps(steps),
    ensures
        ascii(spaced_text(steps, gaps)),
    decreases steps.len(),
{
    reveal_strlit("(");
    reveal_strlit(")");
    assert(blank(gaps[0]));
    assert(ascii(gaps[0]));
    if steps.len() > 0 {
        let rest = steps.drop_first();
        let later = gaps.drop_first();
        assert(plain_name(steps[0].0) && plain_names(steps[0].1));
        assert(plain_steps(rest)) by {
            assert forall|i: int| 0 <= i < rest.len() implies plain_name(#[trigger] rest[i].0)
                && plain_names(rest[i].1) by {
                assert(rest[i] == steps[i + 1]);
            }
        }
        assert(blanks(later)) by {
            assert forall|i: int| 0 <= i < later.len() implies blank(#[trigger] later[i]) by {
                assert(later[i] == gaps[i + 1]);
            }
        }
        lemma_spaced_ascii(rest, later);
        assert(are_names(steps[0].1)) by {
            assert forall|i: int| 0 <= i < steps[0].1.len() implies is_name(
                #[trigger] steps[0].1[i],
            ) by {
                assert(plain_name(steps[0].1[i]));
            }
        }
        lemma_listed_ascii(steps[0].1);
        assert(ascii("("@) && ascii(")"@));
        assert(ascii(steps[0].0));
        lemma_ascii_join("("@, steps[0].0);
        lemma_ascii_join("("@ + steps[0].0, listed(steps[0].1));
        lemma_ascii_join("("@ + steps[0].0 + listed(steps[0].1), ")"@);
        lemma_ascii_join(gaps[0], step_text(steps[0]));
        lemma_ascii_join(gaps[0] + step_text(steps[0]), spaced_text(rest, later));
    }
}

/// Whitespace between steps is insignificant: steps written with whatever
/// whitespace before, between and behind them are parsed as those steps,
/// whenever their names are names and no keywords.
pub proof fn lemma_gaps_do_not_count(steps: Seq<StepView>, gaps: Seq<Seq<char>>)
    requires
        gaps.len() == steps.len() + 1,
        blanks(gaps),
        plain_steps(steps),
        spaced_text(steps, gaps).len() <= usize::MAX,
    ensures
        whole_plan(encode_utf8(spaced_text(steps, gaps))) == Ok::<_, Fail>(steps),
{
    let written = spaced_text(steps, gaps);
    lemma_spaced_ascii(steps, gaps);
    lemma_ascii_bytes(written);
    let s = bytes_of(written);
    assert(holds(s, 0, written));
    lemma_spaced_read(s, 0, steps, gaps);
}

} // verus!
