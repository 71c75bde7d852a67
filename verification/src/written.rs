//! Text as it is written: what it means for an input to hold a text, and
//! the facts by which what was written is found again when it is read.

use vstd::prelude::*;
use vstd::utf8::{encode_utf8, is_ascii_chars, is_ascii_chars_encode_utf8};
use crate::shared::{
    close_paren, in_comment, is_multispace, is_name_char, is_name_start, listed, name_end, named,
    names, open_paren, skip_multispace, text, without_comments, Fail,
};

verus! {

/// The bytes that ASCII text is written as.
pub open spec fn bytes_of(t: Seq<char>) -> Seq<u8> {
    Seq::new(t.len(), |i: int| t[i] as u8)
}

/// Whether the text is a name: ASCII text that starts with a character
/// that a name may start with and goes on with name characters.
pub open spec fn is_name(n: Seq<char>) -> bool {
    &&& n.len() > 0
    &&& forall|i: int|
        0 <= i < n.len() ==> (#[trigger] n[i] as int) < 128 && (i > 0 ==> is_name_char(n[i] as u8))
    &&& is_name_start(n[0] as u8)
}

/// Whether every text of the row is a name.
pub open spec fn are_names(row: Seq<Seq<char>>) -> bool {
    forall|i: int| 0 <= i < row.len() ==> is_name(#[trigger] row[i])
}

/// Whether the input holds the text at `pos`, byte for byte.
pub open spec fn holds(s: Seq<u8>, pos: int, t: Seq<char>) -> bool {
    &&& 0 <= pos
    &&& pos + t.len() <= s.len()
    &&& forall|k: int| 0 <= k < t.len() ==> s[pos + k] == #[trigger] t[k] as u8
}

/// An ASCII character is the character of its byte.
pub proof fn lemma_ascii_char(c: char)
    requires
        (c as int) < 128,
    ensures
        (c as u8) as char == c,
        '\0' <= c <= '\u{7f}',
{
}

/// A run of name characters that something else ends is a run to its end.
pub proof fn lemma_name_run(s: Seq<u8>, pos: int, end: int)
    requires
        0 <= pos <= end <= s.len(),
        forall|i: int| pos <= i < end ==> is_name_char(#[trigger] s[i]),
        end == s.len() || !is_name_char(s[end]),
    ensures
        name_end(s, pos) == end,
    decreases end - pos,
{
    if pos < end {
        lemma_name_run(s, pos + 1, end);
    }
}

/// A name that the input holds, with no name character behind it, is the
/// name found there.
pub proof fn lemma_named_found(s: Seq<u8>, pos: int, n: Seq<char>)
    requires
        is_name(n),
        holds(s, pos, n),
        pos + n.len() == s.len() || !is_name_char(s[pos + n.len()]),
    ensures
        named(s, pos) == Some((n, pos + n.len())),
        name_end(s, pos + 1) == pos + n.len(),
        !is_multispace(s[pos]),
{
    let end = pos + n.len();
    assert forall|i: int| pos + 1 <= i < end implies is_name_char(#[trigger] s[i]) by {
        assert(s[pos + (i - pos)] == n[i - pos] as u8);
    }
    lemma_name_run(s, pos + 1, end);
    assert(s[pos + 0] == n[0] as u8);
    assert(text(s.subrange(pos, end)) =~= n) by {
        assert forall|i: int| 0 <= i < n.len() implies text(s.subrange(pos, end))[i] == n[i] by {
            let c = n[i];
            let b = s[pos + i];
            assert(b == c as u8);
            assert((c as int) < 128);
            assert(s.subrange(pos, end)[i] == b);
            assert(text(s.subrange(pos, end))[i] == b as char);
            lemma_ascii_char(c);
        }
    }
}

/// Whitespace does not start where something else stands.
pub proof fn lemma_no_space(s: Seq<u8>, pos: int)
    requires
        pos >= s.len() || pos < 0 || !is_multispace(s[pos]),
    ensures
        skip_multispace(s, pos) == pos,
{
}

/// One byte of whitespace before something else is skipped.
pub proof fn lemma_one_space(s: Seq<u8>, pos: int)
    requires
        0 <= pos < s.len(),
        is_multispace(s[pos]),
        pos + 1 == s.len() || !is_multispace(s[pos + 1]),
    ensures
        skip_multispace(s, pos) == pos + 1,
{
    lemma_no_space(s, pos + 1);
}

/// An input without `;` holds no comment.
pub proof fn lemma_no_comments(s: Seq<u8>)
    requires
        forall|i: int| 0 <= i < s.len() ==> #[trigger] s[i] != 59,
    ensures
        without_comments(s) == s,
{
    assert forall|i: int| 0 <= i < s.len() implies !in_comment(s, i) by {
        lemma_not_in_comment(s, i);
    }
    assert(without_comments(s) =~= s);
}

/// In an input without `;` no byte belongs to a comment.
pub proof fn lemma_not_in_comment(s: Seq<u8>, i: int)
    requires
        forall|j: int| 0 <= j < s.len() ==> #[trigger] s[j] != 59,
    ensures
        !in_comment(s, i),
    decreases i,
{
    if 0 < i < s.len() {
        lemma_not_in_comment(s, i - 1);
    }
}

/// Names written in a row are the names found there, when the last of
/// them ends where the row ends and no further name follows the
/// whitespace behind it.
pub proof fn lemma_listed_names(s: Seq<u8>, pos: int, row: Seq<Seq<char>>)
    requires
        are_names(row),
        holds(s, pos, listed(row)),
        pos + listed(row).len() == s.len() || !is_name_char(s[pos + listed(row).len()]),
        named(s, skip_multispace(s, pos + listed(row).len())) is None,
    ensures
        names(s, pos) == (row, pos + listed(row).len()),
    decreases row.len(),
{
    reveal_strlit(" ");
    if row.len() == 0 {
        assert(row =~= Seq::<Seq<char>>::empty());
    } else {
        let first = row[0];
        let rest = row.drop_first();
        let all = listed(row);
        let tail = listed(rest);
        assert(all =~= " "@ + first + tail);
        assert(is_name(first));
        assert(are_names(rest)) by {
            assert forall|i: int| 0 <= i < rest.len() implies is_name(#[trigger] rest[i]) by {
                assert(rest[i] == row[i + 1]);
            }
        }
        lemma_holds_split(s, pos, " "@ + first, tail);
        lemma_holds_split(s, pos, " "@, first);
        let at = pos + 1;
        let end = at + first.len();
        assert(s[pos + 0] == " "@[0] as u8);
        assert(end == s.len() || !is_name_char(s[end])) by {
            if rest.len() > 0 {
                assert(tail =~= " "@ + rest[0] + listed(rest.drop_first()));
                assert(s[end + 0] == tail[0] as u8);
            }
        }
        lemma_named_found(s, at, first);
        lemma_one_space(s, pos);
        lemma_listed_names(s, end, rest);
        assert(seq![first] + rest =~= row);
    }
}

/// An input that holds two texts in a row holds each of them.
pub proof fn lemma_holds_split(s: Seq<u8>, pos: int, a: Seq<char>, b: Seq<char>)
    requires
        holds(s, pos, a + b),
    ensures
        holds(s, pos, a),
        holds(s, pos + a.len(), b),
{
    assert forall|k: int| 0 <= k < a.len() implies s[pos + k] == #[trigger] a[k] as u8 by {
        assert(s[pos + k] == (a + b)[k] as u8);
    }
    assert forall|k: int| 0 <= k < b.len() implies s[pos + a.len() + k] == #[trigger] b[k]
        as u8 by {
        assert(s[pos + (a.len() + k)] == (a + b)[a.len() + k] as u8);
    }
}

/// An opening parenthesis with something behind it that is no whitespace
/// is read up to that.
pub proof fn lemma_opened(s: Seq<u8>, from: int, pos: int)
    requires
        skip_multispace(s, from) == pos,
        0 <= pos < s.len(),
        s[pos] == 40,
        pos + 1 == s.len() || !is_multispace(s[pos + 1]),
    ensures
        open_paren(s, from) == Ok::<int, Fail>(pos + 1),
{
    lemma_no_space(s, pos + 1);
}

/// A closing parenthesis is read up to what follows the whitespace behind
/// it.
pub proof fn lemma_closed(s: Seq<u8>, from: int, pos: int)
    requires
        skip_multispace(s, from) == pos,
        0 <= pos < s.len(),
        s[pos] == 41,
    ensures
        close_paren(s, from) == Ok::<int, Fail>(skip_multispace(s, pos + 1)),
{
}


/// Whether the text is made of ASCII characters.
pub open spec fn ascii(t: Seq<char>) -> bool {
    forall|k: int| 0 <= k < t.len() ==> (#[trigger] t[k] as int) < 128
}

/// ASCII text is encoded as one byte for each character.
pub proof fn lemma_ascii_bytes(t: Seq<char>)
    requires
        ascii(t),
    ensures
        encode_utf8(t) == bytes_of(t),
{
    assert(is_ascii_chars(t)) by {
        assert forall|i: int| 0 <= i < t.len() implies '\0' <= #[trigger] t[i] <= '\u{7f}' by {
            lemma_ascii_char(t[i]);
        }
    }
    is_ascii_chars_encode_utf8(t);
    assert(encode_utf8(t) =~= bytes_of(t));
}

/// Two ASCII texts in a row are ASCII text.
pub proof fn lemma_ascii_join(a: Seq<char>, b: Seq<char>)
    requires
        ascii(a),
        ascii(b),
    ensures
        ascii(a + b),
{
    assert forall|k: int| 0 <= k < (a + b).len() implies (#[trigger] (a + b)[k] as int) < 128 by {
        if k < a.len() {
            assert((a + b)[k] == a[k]);
        } else {
            assert((a + b)[k] == b[k - a.len()]);
        }
    }
}

/// Names written in a row are ASCII text.
pub proof fn lemma_listed_ascii(row: Seq<Seq<char>>)
    requires
        are_names(row),
    ensures
        ascii(listed(row)),
    decreases row.len(),
{
    reveal_strlit(" ");
    if row.len() > 0 {
        let rest = row.drop_first();
        assert(are_names(rest)) by {
            assert forall|i: int| 0 <= i < rest.len() implies is_name(#[trigger] rest[i]) by {
                assert(rest[i] == row[i + 1]);
            }
        }
        lemma_listed_ascii(rest);
        assert(is_name(row[0]));
        assert(ascii(row[0]));
        assert(ascii(" "@));
        lemma_ascii_join(" "@, row[0]);
        lemma_ascii_join(" "@ + row[0], listed(rest));
    }
}

} // verus!
