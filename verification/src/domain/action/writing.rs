//! Expressions as they are written, and the proof that what is written is
//! read back as it was.

use vstd::prelude::*;
use vstd::utf8::{encode_utf8, is_ascii_chars};
use crate::domain::action::string_expression::{body, children, expression, ExpressionView};
use crate::shared::{
    end_span, fold, is_letter, is_name_char, lemma_skip_multispace, listed, named, names,
    open_paren, same_word, skip_multispace, unexpected, Fail,
};
use crate::term::TermView;
use crate::written::{
    are_names, ascii, bytes_of, holds, is_name, lemma_ascii_bytes, lemma_ascii_join, lemma_closed,
    lemma_holds_split, lemma_listed_ascii, lemma_listed_names, lemma_named_found, lemma_no_space,
    lemma_one_space, lemma_opened,
};

verus! {

/// Whether the name spells one of the keywords of expressions.
pub open spec fn reserved(name: Seq<char>) -> bool {
    let word = bytes_of(name);
    same_word(word, "and"@) || same_word(word, "or"@) || same_word(word, "not"@) || same_word(
        word,
        "imply"@,
    )
}

/// Whether the expression can be written and read back: its names are
/// names, no predicate is named like a keyword, and `=` and `or` have at
/// least one operand.
pub open spec fn writable(e: ExpressionView) -> bool
    decreases e,
{
    match e {
        ExpressionView::Predicate(t) => is_name(t.name) && !reserved(t.name) && are_names(
            t.parameters,
        ),
        ExpressionView::Equal(operands) => operands.len() > 0 && are_names(operands),
        ExpressionView::And(row) => writable_row(row),
        ExpressionView::Or(row) => row.len() > 0 && writable_row(row),
        ExpressionView::Not(child) => writable(*child),
        ExpressionView::Imply(first, second) => writable(*first) && writable(*second),
    }
}

/// Whether every expression of the row can be written and read back.
pub open spec fn writable_row(row: Seq<ExpressionView>) -> bool
    decreases row,
{
    if row.len() == 0 {
        true
    } else {
        writable(row[0]) && writable_row(row.drop_first())
    }
}

/// The expression as it is written: in parentheses the head, then each
/// operand or child after one space.
pub open spec fn written(e: ExpressionView) -> Seq<char>
    decreases e,
{
    match e {
        ExpressionView::Predicate(t) => "("@ + t.name + listed(t.parameters) + ")"@,
        ExpressionView::Equal(operands) => "("@ + "="@ + listed(operands) + ")"@,
        ExpressionView::And(row) => "("@ + "and"@ + written_row(row) + ")"@,
        ExpressionView::Or(row) => "("@ + "or"@ + written_row(row) + ")"@,
        ExpressionView::Not(child) => "("@ + "not"@ + " "@ + written(*child) + ")"@,
        ExpressionView::Imply(first, second) => "("@ + "imply"@ + " "@ + written(*first) + " "@
            + written(*second) + ")"@,
    }
}

/// The expressions of a row as they are written, each after one space.
pub open spec fn written_row(row: Seq<ExpressionView>) -> Seq<char>
    decreases row,
{
    if row.len() == 0 {
        Seq::empty()
    } else {
        " "@ + written(row[0]) + written_row(row.drop_first())
    }
}

/// What is written starts with `(` and ends with `)`.
pub proof fn lemma_written_shape(e: ExpressionView)
    ensures
        written(e).len() >= 2,
        written(e)[0] == '(',
        written(e)[written(e).len() - 1] == ')',
{
    reveal_strlit("(");
    reveal_strlit(")");
    match e {
        ExpressionView::Predicate(t) => {},
        ExpressionView::Equal(operands) => {},
        ExpressionView::And(row) => {},
        ExpressionView::Or(row) => {},
        ExpressionView::Not(child) => {},
        ExpressionView::Imply(first, second) => {},
    }
}

/// Skipping whitespace twice skips no more than skipping it once.
pub proof fn lemma_skipped_once(s: Seq<u8>, pos: int)
    requires
        0 <= pos <= s.len(),
    ensures
        skip_multispace(s, skip_multispace(s, pos)) == skip_multispace(s, pos),
{
    lemma_skip_multispace(s, pos);
    lemma_no_space(s, skip_multispace(s, pos));
}

/// The head of a written expression is read as it is written: the
/// parenthesis opens, and the word behind it is found as a name.
proof fn lemma_head_read(s: Seq<u8>, from: int, pos: int, word: Seq<char>)
    requires
        0 <= from,
        skip_multispace(s, from) == pos,
        holds(s, pos, "("@ + word),
        is_name(word),
        pos + 1 + word.len() == s.len() || !is_name_char(s[pos + 1 + word.len()]),
    ensures
        open_paren(s, from) == Ok::<int, Fail>(pos + 1),
        named(s, pos + 1) == Some((word, pos + 1 + word.len())),
        s[pos + 1] != 61,
        s.subrange(pos + 1, pos + 1 + word.len()) == bytes_of(word),
        from <= pos,
{
    reveal_strlit("(");
    if from <= s.len() {
        lemma_skip_multispace(s, from);
    }
    lemma_holds_split(s, pos, "("@, word);
    assert(s[pos + 0] == "("@[0] as u8);
    lemma_named_found(s, pos + 1, word);
    lemma_opened(s, from, pos);
    assert(s[pos + 1 + 0] == word[0] as u8);
    assert(s.subrange(pos + 1, pos + 1 + word.len()) =~= bytes_of(word)) by {
        assert forall|i: int| 0 <= i < word.len() implies s.subrange(
            pos + 1,
            pos + 1 + word.len(),
        )[i] == bytes_of(word)[i] by {
            assert(s[pos + 1 + i] == word[i] as u8);
        }
    }
}

/// The four keywords are names, and none spells another.
proof fn lemma_keywords()
    ensures
        is_name("and"@),
        is_name("or"@),
        is_name("not"@),
        is_name("imply"@),
        is_ascii_chars("and"@),
        is_ascii_chars("or"@),
        is_ascii_chars("not"@),
        is_ascii_chars("imply"@),
        same_word(bytes_of("and"@), "and"@),
        same_word(bytes_of("or"@), "or"@),
        same_word(bytes_of("not"@), "not"@),
        same_word(bytes_of("imply"@), "imply"@),
        !same_word(bytes_of("or"@), "and"@),
        !same_word(bytes_of("not"@), "and"@),
        !same_word(bytes_of("not"@), "or"@),
        !same_word(bytes_of("imply"@), "and"@),
        !same_word(bytes_of("imply"@), "or"@),
        !same_word(bytes_of("imply"@), "not"@),
{
    reveal_strlit("and");
    reveal_strlit("or");
    reveal_strlit("not");
    reveal_strlit("imply");
    assert(fold(bytes_of("not"@)[0]) != fold("and"@[0] as u8));
}

/// Whatever spells `and` or `or`, in any letter case, is a name.
proof fn lemma_spelling_is_name(word: Seq<char>)
    requires
        ascii(word),
        same_word(bytes_of(word), "and"@) || same_word(bytes_of(word), "or"@),
    ensures
        is_name(word),
{
    reveal_strlit("and");
    reveal_strlit("or");
    let w = bytes_of(word);
    assert forall|i: int| 0 <= i < word.len() implies is_letter(#[trigger] word[i] as u8) by {
        assert(w[i] == word[i] as u8);
        if same_word(w, "and"@) {
            assert(fold(w[i]) == fold("and"@[i] as u8));
        } else {
            assert(fold(w[i]) == fold("or"@[i] as u8));
        }
    }
    assert(is_letter(word[0] as u8));
}

/// A written predicate is read back.
proof fn lemma_predicate_read(s: Seq<u8>, from: int, pos: int, t: TermView)
    requires
        writable(ExpressionView::Predicate(t)),
        holds(s, pos, written(ExpressionView::Predicate(t))),
        0 <= from,
        skip_multispace(s, from) == pos,
    ensures
        expression(s, from) == Ok::<_, Fail>(
            (
                ExpressionView::Predicate(t),
                skip_multispace(s, pos + written(ExpressionView::Predicate(t)).len()),
            ),
        ),
{
    reveal_strlit("(");
    reveal_strlit(")");
    reveal_strlit(" ");
    let row = listed(t.parameters);
    let all = written(ExpressionView::Predicate(t));
    let end = pos + 1 + t.name.len();
    let close = end + row.len();
    lemma_holds_split(s, pos, "("@ + t.name + row, ")"@);
    lemma_holds_split(s, pos, "("@ + t.name, row);
    assert(s[close + 0] == ")"@[0] as u8);
    assert(!is_name_char(s[end])) by {
        if t.parameters.len() > 0 {
            assert(row =~= " "@ + t.parameters[0] + listed(t.parameters.drop_first()));
            assert(s[end + 0] == row[0] as u8);
        }
    }
    lemma_head_read(s, from, pos, t.name);
    lemma_no_space(s, close);
    lemma_listed_names(s, end, t.parameters);
    lemma_no_space(s, close);
    lemma_closed(s, close, close);
    assert(body(s, pos + 1) == Ok::<_, Fail>((ExpressionView::Predicate(t), close)));
}

/// A written equality is read back.
proof fn lemma_equal_read(s: Seq<u8>, from: int, pos: int, operands: Seq<Seq<char>>)
    requires
        writable(ExpressionView::Equal(operands)),
        holds(s, pos, written(ExpressionView::Equal(operands))),
        0 <= from,
        skip_multispace(s, from) == pos,
    ensures
        expression(s, from) == Ok::<_, Fail>(
            (
                ExpressionView::Equal(operands),
                skip_multispace(s, pos + written(ExpressionView::Equal(operands)).len()),
            ),
        ),
{
    reveal_strlit("(");
    reveal_strlit(")");
    reveal_strlit("=");
    let row = listed(operands);
    let end = pos + 2;
    let close = end + row.len();
    lemma_holds_split(s, pos, "("@ + "="@ + row, ")"@);
    lemma_holds_split(s, pos, "("@ + "="@, row);
    lemma_holds_split(s, pos, "("@, "="@);
    assert(s[pos + 0] == "("@[0] as u8);
    assert(s[pos + 1 + 0] == "="@[0] as u8);
    assert(s[close + 0] == ")"@[0] as u8);
    if from <= s.len() {
        lemma_skip_multispace(s, from);
    }
    assert(!is_name_char(s[close]));
    lemma_opened(s, from, pos);
    lemma_no_space(s, close);
    lemma_listed_names(s, end, operands);
    lemma_no_space(s, close);
    lemma_closed(s, close, close);
    assert(body(s, pos + 1) == Ok::<_, Fail>((ExpressionView::Equal(operands), close)));
}

/// A written conjunction or disjunction is read back, once its row is.
proof fn lemma_row_form_read(
    s: Seq<u8>,
    from: int,
    pos: int,
    word: Seq<char>,
    row: Seq<ExpressionView>,
    stop: int,
)
    requires
        ascii(word),
        same_word(bytes_of(word), "and"@) || (same_word(bytes_of(word), "or"@) && row.len() > 0),
        holds(s, pos, "("@ + word + written_row(row) + ")"@),
        0 <= from,
        skip_multispace(s, from) == pos,
        children(s, pos + 1 + word.len()) == Ok::<_, Fail>((row, stop)),
        skip_multispace(s, stop) == pos + 1 + word.len() + written_row(row).len(),
    ensures
        expression(s, from) == Ok::<_, Fail>(
            (
                if same_word(bytes_of(word), "and"@) {
                    ExpressionView::And(row)
                } else {
                    ExpressionView::Or(row)
                },
                skip_multispace(s, pos + 2 + word.len() + written_row(row).len()),
            ),
        ),
{
    reveal_strlit("(");
    reveal_strlit(")");
    reveal_strlit(" ");
    reveal_strlit("and");
    reveal_strlit("or");
    reveal_strlit("not");
    reveal_strlit("imply");
    lemma_keywords();
    let text = written_row(row);
    let end = pos + 1 + word.len();
    let close = end + text.len();
    lemma_holds_split(s, pos, "("@ + word + text, ")"@);
    lemma_holds_split(s, pos, "("@ + word, text);
    assert(s[close + 0] == ")"@[0] as u8);
    assert(!is_name_char(s[end])) by {
        if row.len() > 0 {
            assert(text =~= " "@ + written(row[0]) + written_row(row.drop_first()));
            assert(s[end + 0] == text[0] as u8);
        }
    }
    lemma_spelling_is_name(word);
    lemma_head_read(s, from, pos, word);
    lemma_closed(s, stop, close);
    if same_word(bytes_of(word), "and"@) {
        assert(body(s, pos + 1) == Ok::<_, Fail>((ExpressionView::And(row), stop)));
    } else {
        assert(body(s, pos + 1) == Ok::<_, Fail>((ExpressionView::Or(row), stop)));
    }
}

/// A written negation is read back, once its child is.
proof fn lemma_not_read(s: Seq<u8>, from: int, pos: int, child: ExpressionView, stop: int)
    requires
        holds(s, pos, written(ExpressionView::Not(Box::new(child)))),
        0 <= from,
        skip_multispace(s, from) == pos,
        expression(s, pos + 4) == Ok::<_, Fail>((child, stop)),
        skip_multispace(s, stop) == pos + 5 + written(child).len(),
    ensures
        expression(s, from) == Ok::<_, Fail>(
            (
                ExpressionView::Not(Box::new(child)),
                skip_multispace(s, pos + 6 + written(child).len()),
            ),
        ),
{
    reveal_strlit("(");
    reveal_strlit(")");
    reveal_strlit(" ");
    reveal_strlit("and");
    reveal_strlit("or");
    reveal_strlit("not");
    reveal_strlit("imply");
    lemma_keywords();
    let inner = written(child);
    let close = pos + 5 + inner.len();
    lemma_holds_split(s, pos, "("@ + "not"@ + " "@ + inner, ")"@);
    lemma_holds_split(s, pos, "("@ + "not"@ + " "@, inner);
    lemma_holds_split(s, pos, "("@ + "not"@, " "@);
    assert(s[close + 0] == ")"@[0] as u8);
    assert(s[pos + 4 + 0] == " "@[0] as u8);
    lemma_head_read(s, from, pos, "not"@);
    lemma_closed(s, stop, close);
    assert(body(s, pos + 1) == Ok::<_, Fail>((ExpressionView::Not(Box::new(child)), stop)));
}

/// A written implication is read back, once its two children are.
proof fn lemma_imply_read(
    s: Seq<u8>,
    from: int,
    pos: int,
    first: ExpressionView,
    second: ExpressionView,
    mid: int,
    stop: int,
)
    requires
        holds(s, pos, written(ExpressionView::Imply(Box::new(first), Box::new(second)))),
        0 <= from,
        skip_multispace(s, from) == pos,
        expression(s, pos + 6) == Ok::<_, Fail>((first, mid)),
        pos + 6 < mid <= s.len(),
        expression(s, mid) == Ok::<_, Fail>((second, stop)),
        skip_multispace(s, stop) == pos + 8 + written(first).len() + written(second).len(),
    ensures
        expression(s, from) == Ok::<_, Fail>(
            (
                ExpressionView::Imply(Box::new(first), Box::new(second)),
                skip_multispace(s, pos + 9 + written(first).len() + written(second).len()),
            ),
        ),
{
    reveal_strlit("(");
    reveal_strlit(")");
    reveal_strlit(" ");
    reveal_strlit("and");
    reveal_strlit("or");
    reveal_strlit("not");
    reveal_strlit("imply");
    lemma_keywords();
    let a = written(first);
    let b = written(second);
    let close = pos + 8 + a.len() + b.len();
    lemma_holds_split(s, pos, "("@ + "imply"@ + " "@ + a + " "@ + b, ")"@);
    lemma_holds_split(s, pos, "("@ + "imply"@ + " "@ + a + " "@, b);
    lemma_holds_split(s, pos, "("@ + "imply"@ + " "@ + a, " "@);
    lemma_holds_split(s, pos, "("@ + "imply"@ + " "@, a);
    lemma_holds_split(s, pos, "("@ + "imply"@, " "@);
    assert(s[close + 0] == ")"@[0] as u8);
    assert(s[pos + 6 + 0] == " "@[0] as u8);
    lemma_head_read(s, from, pos, "imply"@);
    lemma_closed(s, stop, close);
    assert(body(s, pos + 1) == Ok::<_, Fail>(
        (ExpressionView::Imply(Box::new(first), Box::new(second)), stop),
    ));
}

/// An expression that the input holds as it is written is read back as it
/// was, from wherever only whitespace stands before it, and up to what
/// follows the whitespace behind it.
pub proof fn lemma_written_read(s: Seq<u8>, from: int, pos: int, e: ExpressionView)
    requires
        writable(e),
        holds(s, pos, written(e)),
        0 <= from,
        skip_multispace(s, from) == pos,
    ensures
        expression(s, from) == Ok::<_, Fail>((e, skip_multispace(s, pos + written(e).len()))),
    decreases e,
{
    reveal_strlit("(");
    reveal_strlit(")");
    reveal_strlit(" ");
    reveal_strlit("and");
    reveal_strlit("or");
    reveal_strlit("not");
    reveal_strlit("imply");
    match e {
        ExpressionView::Predicate(t) => {
            lemma_predicate_read(s, from, pos, t);
        },
        ExpressionView::Equal(operands) => {
            lemma_equal_read(s, from, pos, operands);
        },
        ExpressionView::And(row) => {
            let text = written_row(row);
            lemma_holds_split(s, pos, "("@ + "and"@ + text, ")"@);
            lemma_holds_split(s, pos, "("@ + "and"@, text);
            assert(s[pos + 4 + text.len() + 0] == ")"@[0] as u8);
            lemma_row_read(s, pos + 4, pos + 4, row);
            let stop = children(s, pos + 4)->Ok_0.1;
            lemma_keywords();
            assert(ascii("and"@));
            lemma_row_form_read(s, from, pos, "and"@, row, stop);
        },
        ExpressionView::Or(row) => {
            let text = written_row(row);
            lemma_holds_split(s, pos, "("@ + "or"@ + text, ")"@);
            lemma_holds_split(s, pos, "("@ + "or"@, text);
            assert(s[pos + 3 + text.len() + 0] == ")"@[0] as u8);
            lemma_row_read(s, pos + 3, pos + 3, row);
            let stop = children(s, pos + 3)->Ok_0.1;
            lemma_keywords();
            assert(ascii("or"@));
            lemma_row_form_read(s, from, pos, "or"@, row, stop);
        },
        ExpressionView::Not(child) => {
            let inner = written(*child);
            lemma_written_shape(*child);
            lemma_holds_split(s, pos, "("@ + "not"@ + " "@ + inner, ")"@);
            lemma_holds_split(s, pos, "("@ + "not"@ + " "@, inner);
            lemma_holds_split(s, pos, "("@ + "not"@, " "@);
            assert(s[pos + 4 + 0] == " "@[0] as u8);
            assert(s[pos + 5 + 0] == inner[0] as u8);
            assert(s[pos + 5 + inner.len() + 0] == ")"@[0] as u8);
            lemma_one_space(s, pos + 4);
            lemma_written_read(s, pos + 4, pos + 5, *child);
            let stop = skip_multispace(s, pos + 5 + inner.len());
            lemma_no_space(s, pos + 5 + inner.len());
            lemma_skipped_once(s, pos + 5 + inner.len());
            assert(e == ExpressionView::Not(Box::new(*child)));
            lemma_not_read(s, from, pos, *child, stop);
        },
        ExpressionView::Imply(first, second) => {
            let a = written(*first);
            let b = written(*second);
            lemma_written_shape(*first);
            lemma_written_shape(*second);
            lemma_holds_split(s, pos, "("@ + "imply"@ + " "@ + a + " "@ + b, ")"@);
            lemma_holds_split(s, pos, "("@ + "imply"@ + " "@ + a + " "@, b);
            lemma_holds_split(s, pos, "("@ + "imply"@ + " "@ + a, " "@);
            lemma_holds_split(s, pos, "("@ + "imply"@ + " "@, a);
            lemma_holds_split(s, pos, "("@ + "imply"@, " "@);
            let second_at = pos + 8 + a.len();
            assert(s[pos + 6 + 0] == " "@[0] as u8);
            assert(s[pos + 7 + 0] == a[0] as u8);
            assert(s[pos + 7 + a.len() + 0] == " "@[0] as u8);
            assert(s[second_at + 0] == b[0] as u8);
            assert(s[second_at + b.len() + 0] == ")"@[0] as u8);
            lemma_one_space(s, pos + 6);
            lemma_written_read(s, pos + 6, pos + 7, *first);
            lemma_one_space(s, pos + 7 + a.len());
            let mid = second_at;
            lemma_no_space(s, mid);
            lemma_written_read(s, mid, mid, *second);
            let stop = skip_multispace(s, mid + b.len());
            lemma_no_space(s, mid + b.len());
            assert(e == ExpressionView::Imply(Box::new(*first), Box::new(*second)));
            lemma_imply_read(s, from, pos, *first, *second, mid, stop);
        },
    }
}

/// A row of expressions that the input holds as it is written, with a
/// closing parenthesis behind it, is read back as it was.
pub proof fn lemma_row_read(s: Seq<u8>, from: int, pos: int, row: Seq<ExpressionView>)
    requires
        writable_row(row),
        holds(s, pos, written_row(row)),
        0 <= from <= s.len(),
        skip_multispace(s, from) == skip_multispace(s, pos),
        pos + written_row(row).len() < s.len(),
        s[pos + written_row(row).len()] == 41,
    ensures
        children(s, from) is Ok,
        children(s, from)->Ok_0.0 == row,
        skip_multispace(s, children(s, from)->Ok_0.1) == pos + written_row(row).len(),
    decreases row,
{
    reveal_strlit(" ");
    if row.len() == 0 {
        lemma_no_space(s, pos);
        assert(row =~= Seq::<ExpressionView>::empty());
    } else {
        let first = written(row[0]);
        let rest = row.drop_first();
        let tail = written_row(rest);
        lemma_written_shape(row[0]);
        lemma_holds_split(s, pos, " "@ + first, tail);
        lemma_holds_split(s, pos, " "@, first);
        assert(s[pos + 0] == " "@[0] as u8);
        assert(s[pos + 1 + 0] == first[0] as u8);
        lemma_one_space(s, pos);
        lemma_skip_multispace(s, from);
        lemma_written_read(s, from, pos + 1, row[0]);
        let behind = pos + 1 + first.len();
        assert(s[behind + tail.len()] == 41);
        let next = skip_multispace(s, behind);
        lemma_skip_multispace(s, behind);
        lemma_skipped_once(s, behind);
        lemma_row_read(s, next, behind, rest);
        assert(seq![row[0]] + rest =~= row);
    }
}

/// A conjunction is read from `and` in whatever letter case, and a
/// disjunction from `or` in whatever letter case: where the input holds
/// `(`, such a word, the written row and `)`, the expression read is the
/// `And` or the `Or` of that row.
pub proof fn lemma_any_letter_case(
    s: Seq<u8>,
    from: int,
    pos: int,
    word: Seq<char>,
    row: Seq<ExpressionView>,
)
    requires
        ascii(word),
        same_word(bytes_of(word), "and"@) || (same_word(bytes_of(word), "or"@) && row.len() > 0),
        writable_row(row),
        holds(s, pos, "("@ + word + written_row(row) + ")"@),
        0 <= from,
        skip_multispace(s, from) == pos,
    ensures
        expression(s, from) == Ok::<_, Fail>(
            (
                if same_word(bytes_of(word), "and"@) {
                    ExpressionView::And(row)
                } else {
                    ExpressionView::Or(row)
                },
                skip_multispace(s, pos + 2 + word.len() + written_row(row).len()),
            ),
        ),
{
    reveal_strlit("(");
    reveal_strlit(")");
    let text = written_row(row);
    let end = pos + 1 + word.len();
    lemma_holds_split(s, pos, "("@ + word + text, ")"@);
    lemma_holds_split(s, pos, "("@ + word, text);
    assert(s[end + text.len() + 0] == ")"@[0] as u8);
    lemma_row_read(s, end, end, row);
    let stop = children(s, end)->Ok_0.1;
    lemma_row_form_read(s, from, pos, word, row, stop);
}

/// `and` may stand alone in its parentheses, `or` may not: where the input
/// holds `(and)` the empty conjunction is read, where it holds `(or)` the
/// expression fails at the closing parenthesis.
pub proof fn lemma_empty_rows(s: Seq<u8>, from: int, pos: int)
    requires
        0 <= from,
        skip_multispace(s, from) == pos,
    ensures
        holds(s, pos, "(and)"@) ==> expression(s, from) == Ok::<_, Fail>(
            (ExpressionView::And(Seq::empty()), skip_multispace(s, pos + 5)),
        ),
        holds(s, pos, "(or)"@) ==> expression(s, from) == Err::<(ExpressionView, int), _>(
            unexpected(s, pos + 3),
        ),
{
    reveal_strlit("(");
    reveal_strlit(")");
    reveal_strlit("and");
    reveal_strlit("or");
    reveal_strlit("(and)");
    reveal_strlit("(or)");
    lemma_keywords();
    if holds(s, pos, "(and)"@) {
        let row = Seq::<ExpressionView>::empty();
        assert("(and)"@ =~= "("@ + "and"@ + written_row(row) + ")"@);
        assert(ascii("and"@));
        lemma_any_letter_case(s, from, pos, "and"@, row);
    }
    if holds(s, pos, "(or)"@) {
        assert("(or)"@ =~= "("@ + "or"@ + ")"@);
        lemma_holds_split(s, pos, "("@ + "or"@, ")"@);
        assert(s[pos + 3 + 0] == ")"@[0] as u8);
        lemma_head_read(s, from, pos, "or"@);
        lemma_no_space(s, pos + 3);
        assert(children(s, pos + 3) == Ok::<_, Fail>((Seq::<ExpressionView>::empty(), pos + 3)));
        assert(body(s, pos + 1) == Err::<(ExpressionView, int), _>(unexpected(s, pos + 3)));
    }
}

/// A predicate that is written without its closing parenthesis is not
/// accepted: the expression fails with the end of the input as its span.
pub proof fn lemma_unclosed_predicate(t: TermView)
    requires
        writable(ExpressionView::Predicate(t)),
    ensures
        expression(encode_utf8("("@ + t.name + listed(t.parameters)), 0) == Err::<
            (ExpressionView, int),
            _,
        >(("unexpected end of input"@, end_span(encode_utf8("("@ + t.name + listed(t.parameters))))),
{
    reveal_strlit("(");
    reveal_strlit(" ");
    let row = listed(t.parameters);
    let all = "("@ + t.name + row;
    lemma_listed_ascii(t.parameters);
    assert(ascii("("@));
    lemma_ascii_join("("@, t.name);
    lemma_ascii_join("("@ + t.name, row);
    lemma_ascii_bytes(all);
    let s = bytes_of(all);
    let end = 1 + t.name.len() as int;
    assert(holds(s, 0, all));
    lemma_holds_split(s, 0, "("@ + t.name, row);
    lemma_no_space(s, 0);
    assert(end == s.len() || !is_name_char(s[end])) by {
        if t.parameters.len() > 0 {
            assert(row =~= " "@ + t.parameters[0] + listed(t.parameters.drop_first()));
            assert(s[end + 0] == row[0] as u8);
        }
    }
    lemma_head_read(s, 0, 0, t.name);
    lemma_no_space(s, s.len() as int);
    lemma_listed_names(s, end, t.parameters);
    lemma_no_space(s, s.len() as int);
    assert(body(s, 1) == Ok::<_, Fail>((ExpressionView::Predicate(t), s.len() as int)));
}

/// What is written of a writable expression is ASCII text.
pub proof fn lemma_written_ascii(e: ExpressionView)
    requires
        writable(e),
    ensures
        ascii(written(e)),
    decreases e,
{
    reveal_strlit("(");
    reveal_strlit(")");
    reveal_strlit(" ");
    reveal_strlit("=");
    reveal_strlit("and");
    reveal_strlit("or");
    reveal_strlit("not");
    reveal_strlit("imply");
    assert(ascii("("@) && ascii(")"@) && ascii(" "@) && ascii("="@));
    assert(ascii("and"@) && ascii("or"@) && ascii("not"@) && ascii("imply"@));
    match e {
        ExpressionView::Predicate(t) => {
            lemma_listed_ascii(t.parameters);
            lemma_ascii_join("("@, t.name);
            lemma_ascii_join("("@ + t.name, listed(t.parameters));
            lemma_ascii_join("("@ + t.name + listed(t.parameters), ")"@);
        },
        ExpressionView::Equal(operands) => {
            lemma_listed_ascii(operands);
            lemma_ascii_join("("@, "="@);
            lemma_ascii_join("("@ + "="@, listed(operands));
            lemma_ascii_join("("@ + "="@ + listed(operands), ")"@);
        },
        ExpressionView::And(row) => {
            lemma_row_ascii(row);
            lemma_ascii_join("("@, "and"@);
            lemma_ascii_join("("@ + "and"@, written_row(row));
            lemma_ascii_join("("@ + "and"@ + written_row(row), ")"@);
        },
        ExpressionView::Or(row) => {
            lemma_row_ascii(row);
            lemma_ascii_join("("@, "or"@);
            lemma_ascii_join("("@ + "or"@, written_row(row));
            lemma_ascii_join("("@ + "or"@ + written_row(row), ")"@);
        },
        ExpressionView::Not(child) => {
            lemma_written_ascii(*child);
            let inner = written(*child);
            lemma_ascii_join("("@, "not"@);
            lemma_ascii_join("("@ + "not"@, " "@);
            lemma_ascii_join("("@ + "not"@ + " "@, inner);
            lemma_ascii_join("("@ + "not"@ + " "@ + inner, ")"@);
        },
        ExpressionView::Imply(first, second) => {
            lemma_written_ascii(*first);
            lemma_written_ascii(*second);
            let a = written(*first);
            let b = written(*second);
            lemma_ascii_join("("@, "imply"@);
            lemma_ascii_join("("@ + "imply"@, " "@);
            lemma_ascii_join("("@ + "imply"@ + " "@, a);
            lemma_ascii_join("("@ + "imply"@ + " "@ + a, " "@);
            lemma_ascii_join("("@ + "imply"@ + " "@ + a + " "@, b);
            lemma_ascii_join("("@ + "imply"@ + " "@ + a + " "@ + b, ")"@);
        },
    }
}

/// What is written of a writable row is ASCII text.
pub proof fn lemma_row_ascii(row: Seq<ExpressionView>)
    requires
        writable_row(row),
    ensures
        ascii(written_row(row)),
    decreases row,
{
    reveal_strlit(" ");
    if row.len() > 0 {
        lemma_written_ascii(row[0]);
        lemma_row_ascii(row.drop_first());
        assert(ascii(" "@));
        lemma_ascii_join(" "@, written(row[0]));
        lemma_ascii_join(" "@ + written(row[0]), written_row(row.drop_first()));
    }
}

/// Whatever expression can be written is parsed, from what was written,
/// as the expression it was, with nothing left over: every child stands in
/// its place, at the depth it had.
pub proof fn lemma_write_then_parse(e: ExpressionView)
    requires
        writable(e),
    ensures
        expression(encode_utf8(written(e)), 0) == Ok::<_, Fail>((e, written(e).len() as int)),
        encode_utf8(written(e)).len() == written(e).len(),
{
    lemma_written_ascii(e);
    lemma_ascii_bytes(written(e));
    let s = bytes_of(written(e));
    lemma_written_shape(e);
    assert(s[0] == written(e)[0] as u8);
    lemma_no_space(s, 0);
    lemma_written_read(s, 0, 0, e);
    lemma_no_space(s, s.len() as int);
}

} // verus!
