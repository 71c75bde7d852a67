//! SAS plans: plan steps as terms, with `;` comments, and their export.

use vstd::prelude::*;
use vstd::string::{StringExecFns, StringSliceAdditionalSpecFns};
use vstd::utf8::{encode_utf8, is_ascii_chars, is_ascii_chars_encode_utf8};
use crate::shared::{
    close_paren, in_comment, is_multispace, is_name_char, is_name_start, listed, multispace0,
    open_paren, parse_close, parse_open, prepend, push_listed, remove_comments, skip_multispace,
    unexpected, without_comments, Fail, Span,
};
use crate::term::{parse_term, term, terms, Term, TermView};
use crate::written::{
    are_names, holds, is_name, lemma_ascii_char, lemma_listed_names, lemma_named_found,
    lemma_no_comments, lemma_no_space, lemma_one_space,
};

verus! {

/// A SAS plan: its steps in order.
pub type SASPlan = Vec<Term>;

/// The steps from `pos` to the end of the input, each a term in
/// parentheses. Whitespace around steps and parentheses does not count;
/// anything else between steps is an error.
pub open spec fn sas_steps(s: Seq<u8>, pos: int) -> Result<(Seq<TermView>, int), Fail>
    decreases s.len() - pos,
{
    if skip_multispace(s, pos) >= s.len() {
        Ok((Seq::empty(), skip_multispace(s, pos)))
    } else {
        match open_paren(s, pos) {
            Ok(inner) => match term(s, inner) {
                Ok((first, end)) => match close_paren(s, end) {
                    Ok(next) => if pos < next <= s.len() {
                        prepend(seq![first], sas_steps(s, next))
                    } else {
                        Err(unexpected(s, pos))
                    },
                    Err(f) => Err(f),
                },
                Err(f) => Err(f),
            },
            Err(f) => Err(f),
        }
    }
}

/// The steps of a whole SAS plan, comments blanked first.
pub open spec fn sas_plan(s: Seq<u8>) -> Result<Seq<TermView>, Fail> {
    match sas_steps(without_comments(s), 0) {
        Ok((found, _)) => Ok(found),
        Err(f) => Err(f),
    }
}

/// Parses a SAS plan, or says where and why it is none.
pub fn parse_sas(input: &str) -> (out: Result<SASPlan, (String, Span)>)
    ensures
        out matches Ok(p) ==> sas_plan(input.spec_bytes()) == Ok::<_, Fail>(terms(p@)),
        out matches Err(e) ==> sas_plan(input.spec_bytes()) == Err::<Seq<TermView>, _>(
            (e.0@, e.1),
        ),
{
    let clean = remove_comments(input.as_bytes());
    let text = clean.as_slice();
    let mut found: Vec<Term> = Vec::new();
    let mut cur: usize = 0;
    loop
        invariant
            cur <= text@.len(),
            text@ == without_comments(input.spec_bytes()),
            sas_steps(text@, 0) == prepend(terms(found@), sas_steps(text@, cur as int)),
        decreases text@.len() - cur,
    {
        let at = multispace0(text, cur);
        if at >= text.len() {
            proof {
                assert(terms(found@) + Seq::<TermView>::empty() =~= terms(found@));
            }
            return Ok(found);
        }
        let inner = parse_open(text, cur)?;
        let (first, end) = parse_term(text, inner)?;
        let next = parse_close(text, end)?;
        proof {
            if let Ok((more, stop)) = sas_steps(text@, next as int) {
                assert(terms(found@.push(first)) + more =~= terms(found@) + (seq![first@] + more));
            }
        }
        found.push(first);
        cur = next;
    }
}

/// Parses a SAS plan that is known to be one.
pub fn parse(input: &str) -> (out: SASPlan)
    requires
        sas_plan(input.spec_bytes()) is Ok,
    ensures
        sas_plan(input.spec_bytes()) == Ok::<_, Fail>(terms(out@)),
{
    match parse_sas(input) {
        Ok(found) => found,
        Err(_) => vstd::pervasive::unreached(),
    }
}

/// One step as it is written: `(name arg ...)` and a line feed.
pub open spec fn step_text(step: TermView) -> Seq<char> {
    "("@ + step.name + listed(step.parameters) + ")\n"@
}

/// A plan as it is written: its steps in order, one per line.
pub open spec fn plan_text(plan: Seq<TermView>) -> Seq<char>
    decreases plan.len(),
{
    if plan.len() == 0 {
        Seq::empty()
    } else {
        step_text(plan[0]) + plan_text(plan.drop_first())
    }
}

/// Writes a plan in its textual form, names as they are.
pub fn export_sas(input: &SASPlan) -> (out: String)
    ensures
        out@ == plan_text(terms(input@)),
{
    let mut out = String::new();
    let mut i: usize = 0;
    proof {
        assert(terms(input@).skip(0) =~= terms(input@));
        assert(out@ + plan_text(terms(input@)) =~= plan_text(terms(input@)));
    }
    while i < input.len()
        invariant
            0 <= i <= input@.len(),
            out@ + plan_text(terms(input@).skip(i as int)) == plan_text(terms(input@)),
        decreases input@.len() - i,
    {
        let step = &input[i];
        let ghost before = out@;
        let ghost rest = terms(input@).skip(i as int);
        out.append("(");
        out.append(step.name.as_str());
        push_listed(&mut out, &step.parameters);
        out.append(")\n");
        i += 1;
        proof {
            assert(rest.drop_first() =~= terms(input@).skip(i as int));
            assert(rest[0] == step@);
            assert(out@ =~= before + step_text(step@));
            assert(out@ + plan_text(rest.drop_first()) =~= before + plan_text(rest));
        }
    }
    proof {
        assert(plan_text(terms(input@).skip(i as int)) =~= Seq::<char>::empty());
        assert(out@ + Seq::<char>::empty() =~= out@);
    }
    out
}


/// Steps are accepted only when the whole input was read: nothing but
/// whitespace is left behind the last step that was found.
pub proof fn lemma_steps_read_all(s: Seq<u8>, pos: int)
    requires
        0 <= pos <= s.len(),
    ensures
        sas_steps(s, pos) matches Ok(found) ==> found.1 == s.len(),
    decreases s.len() - pos,
{
    crate::shared::lemma_skip_multispace(s, pos);
    if skip_multispace(s, pos) < s.len() {
        if let Ok(inner) = open_paren(s, pos) {
            if let Ok((first, end)) = term(s, inner) {
                if let Ok(next) = close_paren(s, end) {
                    if pos < next <= s.len() {
                        lemma_steps_read_all(s, next);
                    }
                }
            }
        }
    }
}

/// Whitespace to the end of the input is skipped to the end.
proof fn lemma_all_space(s: Seq<u8>, pos: int)
    requires
        0 <= pos <= s.len(),
        forall|i: int| pos <= i < s.len() ==> is_multispace(#[trigger] s[i]),
    ensures
        skip_multispace(s, pos) == s.len(),
    decreases s.len() - pos,
{
    if pos < s.len() {
        lemma_all_space(s, pos + 1);
    }
}

/// An input that holds nothing but whitespace and comments is a plan
/// without steps.
pub proof fn lemma_comments_only(s: Seq<u8>)
    requires
        forall|i: int| 0 <= i < s.len() ==> is_multispace(#[trigger] s[i]) || in_comment(s, i),
    ensures
        sas_plan(s) == Ok::<_, Fail>(Seq::<TermView>::empty()),
{
    let clean = without_comments(s);
    assert forall|i: int| 0 <= i < clean.len() implies is_multispace(#[trigger] clean[i]) by {
        assert(is_multispace(s[i]) || in_comment(s, i));
    }
    lemma_all_space(clean, 0);
}

/// Whether a step can be written and read back: its name and its arguments
/// are names.
pub open spec fn valid_step(step: TermView) -> bool {
    is_name(step.name) && are_names(step.parameters)
}

/// Whether every step of the plan can be written and read back.
pub open spec fn valid_plan(plan: Seq<TermView>) -> bool {
    forall|i: int| 0 <= i < plan.len() ==> valid_step(#[trigger] plan[i])
}

/// Whether the character is one that a written plan is made of: a
/// character of a name, a parenthesis, a space or a line feed.
pub open spec fn plain(c: char) -> bool {
    (c as int) < 128 && (is_name_char(c as u8) || is_name_start(c as u8) || c == '(' || c == ')'
        || c == ' ' || c == '\n')
}

/// Names written in a row are made of plain characters.
proof fn lemma_listed_plain(row: Seq<Seq<char>>)
    requires
        are_names(row),
    ensures
        forall|k: int| 0 <= k < listed(row).len() ==> plain(#[trigger] listed(row)[k]),
    decreases row.len(),
{
    reveal_strlit(" ");
    if row.len() > 0 {
        let rest = row.drop_first();
        assert(are_names(rest)) by {
            assert forall|i: int| 0 <= i < rest.len() implies is_name(#[trigger] rest[i]) by {
                assert(rest[i] == row[i + 1]);
            }
        }
        lemma_listed_plain(rest);
        assert(is_name(row[0]));
        assert forall|k: int| 0 <= k < listed(row).len() implies plain(
            #[trigger] listed(row)[k],
        ) by {
            if k == 0 {
            } else if k < 1 + row[0].len() {
                assert(listed(row)[k] == row[0][k - 1]);
            } else {
                assert(listed(row)[k] == listed(rest)[k - 1 - row[0].len()]);
            }
        }
    }
}

/// A written step is made of plain characters, three more than its names
/// and arguments have.
proof fn lemma_step_plain(step: TermView)
    requires
        valid_step(step),
    ensures
        forall|k: int| 0 <= k < step_text(step).len() ==> plain(#[trigger] step_text(step)[k]),
        step_text(step).len() == step.name.len() + listed(step.parameters).len() + 3,
{
    reveal_strlit("(");
    reveal_strlit(")\n");
    lemma_listed_plain(step.parameters);
    let row = listed(step.parameters);
    let n = step.name.len() as int;
    assert forall|k: int| 0 <= k < step_text(step).len() implies plain(
        #[trigger] step_text(step)[k],
    ) by {
        if k == 0 {
        } else if k < 1 + n {
            assert(step_text(step)[k] == step.name[k - 1]);
        } else if k < 1 + n + row.len() {
            assert(step_text(step)[k] == row[k - 1 - n]);
        } else {
            assert(step_text(step)[k] == ")\n"@[k - 1 - n - row.len()]);
        }
    }
}

/// A written plan is made of plain characters.
proof fn lemma_plan_plain(plan: Seq<TermView>)
    requires
        valid_plan(plan),
    ensures
        forall|k: int| 0 <= k < plan_text(plan).len() ==> plain(#[trigger] plan_text(plan)[k]),
    decreases plan.len(),
{
    if plan.len() > 0 {
        let rest = plan.drop_first();
        assert(valid_plan(rest)) by {
            assert forall|i: int| 0 <= i < rest.len() implies valid_step(#[trigger] rest[i]) by {
                assert(rest[i] == plan[i + 1]);
            }
        }
        assert(valid_step(plan[0]));
        lemma_step_plain(plan[0]);
        lemma_plan_plain(rest);
        let first = step_text(plan[0]);
        assert forall|k: int| 0 <= k < plan_text(plan).len() implies plain(
            #[trigger] plan_text(plan)[k],
        ) by {
            if k < first.len() {
                assert(plan_text(plan)[k] == first[k]);
            } else {
                assert(plan_text(plan)[k] == plan_text(rest)[k - first.len()]);
            }
        }
    }
}

/// A written step that the input holds, with the next step or the end of
/// the input behind it, is read as that step.
proof fn lemma_step_read(s: Seq<u8>, pos: int, step: TermView)
    requires
        valid_step(step),
        holds(s, pos, step_text(step)),
        pos + step_text(step).len() == s.len() || s[pos + step_text(step).len()] == 40,
    ensures
        skip_multispace(s, pos) < s.len(),
        open_paren(s, pos) == Ok::<int, Fail>(pos + 1),
        term(s, pos + 1) == Ok::<_, Fail>((step, pos + step_text(step).len() - 2)),
        close_paren(s, pos + step_text(step).len() - 2) == Ok::<int, Fail>(
            pos + step_text(step).len(),
        ),
{
    reveal_strlit("(");
    reveal_strlit(")\n");
    let all = step_text(step);
    let row = listed(step.parameters);
    let n = step.name.len() as int;
    lemma_step_plain(step);
    assert(s[pos + 0] == all[0] as u8);
    assert(all[0] == '(');
    let at = pos + 1;
    let end = at + n;
    let close = end + row.len();
    assert(holds(s, at, step.name)) by {
        assert forall|k: int| 0 <= k < n implies s[at + k] == #[trigger] step.name[k] as u8 by {
            assert(s[pos + (1 + k)] == all[1 + k] as u8);
            assert(all[1 + k] == step.name[k]);
        }
    }
    assert(holds(s, end, row)) by {
        assert forall|k: int| 0 <= k < row.len() implies s[end + k] == #[trigger] row[k] as u8 by {
            assert(s[pos + (1 + n + k)] == all[1 + n + k] as u8);
            assert(all[1 + n + k] == row[k]);
        }
    }
    assert(s[close] == 41) by {
        assert(s[pos + (1 + n + row.len())] == all[1 + n + row.len()] as u8);
        assert(all[1 + n + row.len()] == ")\n"@[0]);
    }
    assert(s[close + 1] == 10) by {
        assert(s[pos + (2 + n + row.len())] == all[2 + n + row.len()] as u8);
        assert(all[2 + n + row.len()] == ")\n"@[1]);
    }
    assert(!is_name_char(s[end])) by {
        if step.parameters.len() > 0 {
            reveal_strlit(" ");
            assert(row =~= " "@ + step.parameters[0] + listed(step.parameters.drop_first()));
            assert(s[end + 0] == row[0] as u8);
            assert(row[0] == ' ');
        }
    }
    lemma_named_found(s, at, step.name);
    lemma_no_space(s, pos);
    lemma_no_space(s, at);
    lemma_no_space(s, close);
    lemma_listed_names(s, end, step.parameters);
    lemma_no_space(s, close);
    lemma_one_space(s, close + 1);
}

/// A written plan that ends the input is read as that plan.
proof fn lemma_plan_read(s: Seq<u8>, pos: int, plan: Seq<TermView>)
    requires
        valid_plan(plan),
        holds(s, pos, plan_text(plan)),
        pos + plan_text(plan).len() == s.len(),
    ensures
        sas_steps(s, pos) == Ok::<_, Fail>((plan, s.len() as int)),
    decreases plan.len(),
{
    reveal_strlit("(");
    if plan.len() == 0 {
        lemma_no_space(s, pos);
        assert(plan =~= Seq::<TermView>::empty());
    } else {
        let first = step_text(plan[0]);
        let rest = plan.drop_first();
        let tail = plan_text(rest);
        let next = pos + first.len();
        assert(valid_step(plan[0]));
        assert(valid_plan(rest)) by {
            assert forall|i: int| 0 <= i < rest.len() implies valid_step(#[trigger] rest[i]) by {
                assert(rest[i] == plan[i + 1]);
            }
        }
        lemma_step_plain(plan[0]);
        assert(holds(s, pos, first)) by {
            assert forall|k: int| 0 <= k < first.len() implies s[pos + k] == #[trigger] first[k]
                as u8 by {
                assert(s[pos + k] == plan_text(plan)[k] as u8);
                assert(plan_text(plan)[k] == first[k]);
            }
        }
        assert(holds(s, next, tail)) by {
            assert forall|k: int| 0 <= k < tail.len() implies s[next + k] == #[trigger] tail[k]
                as u8 by {
                assert(s[pos + (first.len() + k)] == plan_text(plan)[first.len() + k] as u8);
                assert(plan_text(plan)[first.len() + k] == tail[k]);
            }
        }
        if rest.len() > 0 {
            let second = step_text(rest[0]);
            assert(second[0] == '(');
            assert(tail[0] == second[0]);
            assert(s[next + 0] == tail[0] as u8);
        }
        lemma_step_read(s, pos, plan[0]);
        lemma_plan_read(s, next, rest);
        assert(seq![plan[0]] + rest =~= plan);
    }
}

/// Writing a plan and parsing what was written gives the plan back,
/// whenever the names of its steps and their arguments are names.
pub proof fn lemma_export_then_parse(plan: Seq<TermView>)
    requires
        valid_plan(plan),
    ensures
        sas_plan(encode_utf8(plan_text(plan))) == Ok::<_, Fail>(plan),
{
    let written = plan_text(plan);
    let s = encode_utf8(written);
    lemma_plan_plain(plan);
    assert(is_ascii_chars(written)) by {
        assert forall|i: int| 0 <= i < written.len() implies '\0' <= #[trigger] written[i]
            <= '\u{7f}' by {
            let c = written[i];
            assert(plain(c));
            assert((c as int) < 128);
            lemma_ascii_char(c);
        }
    }
    is_ascii_chars_encode_utf8(written);
    assert forall|i: int| 0 <= i < s.len() implies #[trigger] s[i] != 59 by {
        assert(plain(written[i]));
        assert(s[i] == written[i] as u8);
    }
    lemma_no_comments(s);
    assert(holds(s, 0, written));
    lemma_plan_read(s, 0, plan);
}

} // verus!
