//! Building blocks shared by every grammar: byte classes, whitespace,
//! names, keywords, source spans and text extraction.
//!
//! Every rule is a function of the input and a position in it. Where a rule
//! goes on from a position that another rule gave, it first checks that the
//! position lies further on and inside the input. That holds of every input;
//! it is written out so that a rule can be defined by recursion on what is
//! left of the input.

use vstd::prelude::*;
use vstd::string::{StringExecFns, StringSliceAdditionalSpecFns};
use vstd::utf8::is_ascii_chars;

verus! {

/// A half-open range of byte offsets into the source text.
#[derive(Debug, PartialEq, Eq, Clone, Copy, Structural)]
pub struct Span {
    pub start: usize,
    pub end: usize,
}

/// `String::push` appends one character to the end of the string.
pub assume_specification[ String::push ](s: &mut String, ch: char)
    ensures
        final(s)@ == old(s)@.push(ch),
;

/// The characters that a run of ASCII bytes stands for.
pub open spec fn text(bytes: Seq<u8>) -> Seq<char> {
    Seq::new(bytes.len(), |i: int| bytes[i] as char)
}

/// Whitespace: space, tab, carriage return, line feed and form feed.
pub open spec fn is_multispace(b: u8) -> bool {
    b == 32 || b == 9 || b == 13 || b == 10 || b == 12
}

/// The ASCII letters.
pub open spec fn is_letter(b: u8) -> bool {
    (65 <= b && b <= 90) || (97 <= b && b <= 122)
}

/// The ASCII digits.
pub open spec fn is_digit(b: u8) -> bool {
    48 <= b && b <= 57
}

/// A name starts with a letter or the variable sigil `?`.
pub open spec fn is_name_start(b: u8) -> bool {
    is_letter(b) || b == 63
}

/// A name continues with letters, digits, `-` and `_`.
pub open spec fn is_name_char(b: u8) -> bool {
    is_letter(b) || is_digit(b) || b == 45 || b == 95
}

/// The first position at or after `pos` that holds no whitespace.
pub open spec fn skip_multispace(s: Seq<u8>, pos: int) -> int
    decreases s.len() - pos,
{
    if 0 <= pos < s.len() && is_multispace(s[pos]) {
        skip_multispace(s, pos + 1)
    } else {
        pos
    }
}

/// The first position at or after `pos` that holds no name character.
pub open spec fn name_end(s: Seq<u8>, pos: int) -> int
    decreases s.len() - pos,
{
    if 0 <= pos < s.len() && is_name_char(s[pos]) {
        name_end(s, pos + 1)
    } else {
        pos
    }
}

/// Skips whitespace.
pub fn multispace0(input: &[u8], pos: usize) -> (end: usize)
    requires
        pos <= input@.len(),
    ensures
        end == skip_multispace(input@, pos as int),
        pos <= end <= input@.len(),
{
    let mut cur: usize = pos;
    while cur < input.len() && (input[cur] == 32 || input[cur] == 9 || input[cur] == 13
        || input[cur] == 10 || input[cur] == 12)
        invariant
            pos <= cur <= input@.len(),
            skip_multispace(input@, pos as int) == skip_multispace(input@, cur as int),
        decreases input@.len() - cur,
    {
        cur += 1;
    }
    cur
}

/// Copies the ASCII bytes `input[start..end]` into a string.
pub fn make_text(input: &[u8], start: usize, end: usize) -> (out: String)
    requires
        start <= end <= input@.len(),
    ensures
        out@ == text(input@.subrange(start as int, end as int)),
{
    let mut out = String::new();
    let mut cur: usize = start;
    while cur < end
        invariant
            start <= cur <= end <= input@.len(),
            out@ == text(input@.subrange(start as int, cur as int)),
        decreases end - cur,
    {
        out.push(input[cur] as char);
        cur += 1;
        assert(out@ =~= text(input@.subrange(start as int, cur as int)));
    }
    assert(out@ =~= text(input@.subrange(start as int, end as int)));
    out
}


/// What a failing grammar rule reports: a message and the bytes it is about.
pub type Fail = (Seq<char>, Span);

/// The first position at or after `pos` that holds no UTF-8 continuation
/// byte: where the character that began before `pos` ends.
pub open spec fn char_end(s: Seq<u8>, pos: int) -> int
    decreases s.len() - pos,
{
    if 0 <= pos < s.len() && 128 <= s[pos] && s[pos] < 192 {
        char_end(s, pos + 1)
    } else {
        pos
    }
}

/// Skips the continuation bytes of a character.
pub fn scan_char(input: &[u8], pos: usize) -> (end: usize)
    requires
        pos <= input@.len(),
    ensures
        end == char_end(input@, pos as int),
        pos <= end <= input@.len(),
{
    let mut cur: usize = pos;
    while cur < input.len() && 128 <= input[cur] && input[cur] < 192
        invariant
            pos <= cur <= input@.len(),
            char_end(input@, pos as int) == char_end(input@, cur as int),
        decreases input@.len() - cur,
    {
        cur += 1;
    }
    cur
}

/// A character ends at or behind where it was looked for, inside the input.
pub proof fn lemma_char_end(s: Seq<u8>, pos: int)
    requires
        0 <= pos <= s.len(),
    ensures
        pos <= char_end(s, pos) <= s.len(),
    decreases s.len() - pos,
{
    if pos < s.len() && 128 <= s[pos] && s[pos] < 192 {
        lemma_char_end(s, pos + 1);
    }
}

/// The empty span at the end of the input.
pub open spec fn end_span(s: Seq<u8>) -> Span {
    Span { start: s.len() as usize, end: s.len() as usize }
}

/// The span of the one character that starts at `pos`.
pub open spec fn char_span(s: Seq<u8>, pos: int) -> Span {
    Span { start: pos as usize, end: char_end(s, pos + 1) as usize }
}

/// The failure reported at `pos`, where no rule can go on: the end of the
/// input, or the character found there.
pub open spec fn unexpected(s: Seq<u8>, pos: int) -> Fail {
    if pos >= s.len() {
        ("unexpected end of input"@, end_span(s))
    } else {
        ("unexpected token"@, char_span(s, pos))
    }
}

/// Makes the failure reported at `pos`.
pub fn fail_at(input: &[u8], pos: usize) -> (out: (String, Span))
    requires
        pos <= input@.len(),
    ensures
        (out.0@, out.1) == unexpected(input@, pos as int),
{
    if pos >= input.len() {
        ("unexpected end of input".to_owned(), Span { start: input.len(), end: input.len() })
    } else {
        ("unexpected token".to_owned(), Span { start: pos, end: scan_char(input, pos + 1) })
    }
}

/// The name that starts at `pos`, with the position behind it: the
/// character it starts with and the run of name characters that follows.
pub open spec fn named(s: Seq<u8>, pos: int) -> Option<(Seq<char>, int)> {
    if 0 <= pos < s.len() && is_name_start(s[pos]) {
        Some((text(s.subrange(pos, name_end(s, pos + 1))), name_end(s, pos + 1)))
    } else {
        None
    }
}

/// A name ends at or behind where it was looked for, inside the input; it
/// holds name characters only, and none follows it.
pub proof fn lemma_name_end(s: Seq<u8>, pos: int)
    requires
        0 <= pos <= s.len(),
    ensures
        pos <= name_end(s, pos) <= s.len(),
        forall|i: int| pos <= i < name_end(s, pos) ==> is_name_char(#[trigger] s[i]),
        name_end(s, pos) < s.len() ==> !is_name_char(s[name_end(s, pos)]),
        pos < s.len() && is_name_char(s[pos]) ==> pos < name_end(s, pos),
    decreases s.len() - pos,
{
    if pos < s.len() && is_name_char(s[pos]) {
        lemma_name_end(s, pos + 1);
    }
}

/// Whitespace ends at or behind where it was looked for, inside the input;
/// it holds whitespace only, and none follows it.
pub proof fn lemma_skip_multispace(s: Seq<u8>, pos: int)
    requires
        0 <= pos <= s.len(),
    ensures
        pos <= skip_multispace(s, pos) <= s.len(),
        forall|i: int| pos <= i < skip_multispace(s, pos) ==> is_multispace(#[trigger] s[i]),
        skip_multispace(s, pos) < s.len() ==> !is_multispace(s[skip_multispace(s, pos)]),
    decreases s.len() - pos,
{
    if pos < s.len() && is_multispace(s[pos]) {
        lemma_skip_multispace(s, pos + 1);
    }
}

/// Tells whether a name may start with the byte.
pub fn is_name_start_byte(b: u8) -> (out: bool)
    ensures
        out == is_name_start(b),
{
    (65 <= b && b <= 90) || (97 <= b && b <= 122) || b == 63
}

/// Tells whether a name may hold the byte.
pub fn is_name_byte(b: u8) -> (out: bool)
    ensures
        out == is_name_char(b),
{
    (65 <= b && b <= 90) || (97 <= b && b <= 122) || (48 <= b && b <= 57) || b == 45 || b == 95
}

/// Finds where the run of name characters that starts at `pos` ends.
pub fn scan_name(input: &[u8], pos: usize) -> (end: usize)
    requires
        pos <= input@.len(),
    ensures
        end == name_end(input@, pos as int),
        pos <= end <= input@.len(),
{
    let mut cur: usize = pos;
    while cur < input.len() && is_name_byte(input[cur])
        invariant
            pos <= cur <= input@.len(),
            name_end(input@, pos as int) == name_end(input@, cur as int),
        decreases input@.len() - cur,
    {
        cur += 1;
    }
    cur
}

/// Reads the name at `pos`, if one starts there.
pub fn parse_named(input: &[u8], pos: usize) -> (out: Option<(String, usize)>)
    requires
        pos <= input@.len(),
    ensures
        out is Some <==> named(input@, pos as int) is Some,
        out matches Some(r) ==> named(input@, pos as int) == Some((r.0@, r.1 as int)) && pos
            < r.1 <= input@.len(),
{
    if pos < input.len() && is_name_start_byte(input[pos]) {
        let end = scan_name(input, pos + 1);
        Some((make_text(input, pos, end), end))
    } else {
        None
    }
}

/// The views of a sequence of strings.
pub open spec fn strings(v: Seq<String>) -> Seq<Seq<char>> {
    Seq::new(v.len(), |i: int| v[i]@)
}

/// Zero or more names, each after optional whitespace, with the position
/// behind the last one.
pub open spec fn names(s: Seq<u8>, pos: int) -> (Seq<Seq<char>>, int)
    decreases s.len() - pos,
{
    match named(s, skip_multispace(s, pos)) {
        Some((name, end)) if pos < end <= s.len() => {
            let rest = names(s, end);
            (seq![name] + rest.0, rest.1)
        },
        _ => (Seq::empty(), pos),
    }
}

/// Names, once found, end behind where they were looked for.
pub proof fn lemma_names_advance(s: Seq<u8>, pos: int)
    requires
        0 <= pos <= s.len(),
    ensures
        pos <= names(s, pos).1 <= s.len(),
        names(s, pos).0.len() > 0 ==> pos < names(s, pos).1,
    decreases s.len() - pos,
{
    match named(s, skip_multispace(s, pos)) {
        Some((name, end)) if pos < end <= s.len() => {
            lemma_names_advance(s, end);
        },
        _ => {},
    }
}

/// Reads zero or more names, each after optional whitespace.
pub fn parse_names(input: &[u8], pos: usize) -> (out: (Vec<String>, usize))
    requires
        pos <= input@.len(),
    ensures
        (strings(out.0@), out.1 as int) == names(input@, pos as int),
        pos <= out.1 <= input@.len(),
{
    let mut found: Vec<String> = Vec::new();
    let mut cur: usize = pos;
    loop
        invariant
            pos <= cur <= input@.len(),
            names(input@, pos as int) == (
                strings(found@) + names(input@, cur as int).0,
                names(input@, cur as int).1,
            ),
        decreases input@.len() - cur,
    {
        let at = multispace0(input, cur);
        match parse_named(input, at) {
            Some((name, end)) => {
                proof {
                    let rest = names(input@, end as int);
                    assert(strings(found@.push(name)) + rest.0 =~= strings(found@) + (seq![name@]
                        + rest.0));
                }
                found.push(name);
                cur = end;
            },
            None => {
                proof {
                    assert(strings(found@) + Seq::<Seq<char>>::empty() =~= strings(found@));
                }
                return (found, cur);
            },
        }
    }
}

/// The ASCII lower-case form of a byte.
pub open spec fn fold(b: u8) -> u8 {
    if 65 <= b && b <= 90 {
        (b + 32) as u8
    } else {
        b
    }
}

/// Whether the bytes `w` spell the ASCII keyword `kw`, letter case aside.
pub open spec fn same_word(w: Seq<u8>, kw: Seq<char>) -> bool {
    &&& is_ascii_chars(kw)
    &&& w.len() == kw.len()
    &&& forall|i: int| 0 <= i < w.len() ==> fold(#[trigger] w[i]) == fold(kw[i] as u8)
}

/// Two words that differ in letter case only spell the same keywords.
pub proof fn lemma_same_word_case(a: Seq<u8>, b: Seq<u8>, kw: Seq<char>)
    requires
        a.len() == b.len(),
        forall|i: int| 0 <= i < a.len() ==> fold(#[trigger] a[i]) == fold(b[i]),
    ensures
        same_word(a, kw) == same_word(b, kw),
{
    if same_word(a, kw) {
        assert forall|i: int| 0 <= i < b.len() implies fold(#[trigger] b[i]) == fold(kw[i] as u8) by {
            assert(fold(a[i]) == fold(b[i]));
        }
    }
    if same_word(b, kw) {
        assert forall|i: int| 0 <= i < a.len() implies fold(#[trigger] a[i]) == fold(kw[i] as u8) by {
            assert(fold(a[i]) == fold(b[i]));
        }
    }
}

/// Gives the ASCII lower-case form of a byte.
pub fn fold_byte(b: u8) -> (out: u8)
    ensures
        out == fold(b),
{
    if 65 <= b && b <= 90 {
        b + 32
    } else {
        b
    }
}

/// Compares `input[start..end]` with a keyword, letter case aside.
pub fn word_is(input: &[u8], start: usize, end: usize, kw: &str) -> (out: bool)
    requires
        start <= end <= input@.len(),
    ensures
        out == same_word(input@.subrange(start as int, end as int), kw@),
{
    if !kw.is_ascii() {
        return false;
    }
    let key = kw.as_bytes();
    proof {
        vstd::string::is_ascii_spec_bytes(kw);
    }
    if key.len() != end - start {
        return false;
    }
    let ghost w = input@.subrange(start as int, end as int);
    let mut i: usize = 0;
    while i < key.len()
        invariant
            start <= end <= input@.len(),
            key@.len() == end - start,
            key@ == kw.spec_bytes(),
            kw.is_ascii(),
            kw@.len() == key@.len(),
            forall|j: int| 0 <= j < key@.len() ==> #[trigger] key@[j] == kw@[j] as u8,
            w == input@.subrange(start as int, end as int),
            0 <= i <= key@.len(),
            forall|j: int| 0 <= j < i ==> fold(#[trigger] w[j]) == fold(kw@[j] as u8),
        decreases key@.len() - i,
    {
        if fold_byte(input[start + i]) != fold_byte(key[i]) {
            assert(w[i as int] == input@[start + i]);
            return false;
        }
        assert(w[i as int] == input@[start + i]);
        i += 1;
    }
    true
}

/// An opening parenthesis with optional whitespace on both sides.
pub open spec fn open_paren(s: Seq<u8>, pos: int) -> Result<int, Fail> {
    let at = skip_multispace(s, pos);
    if at < s.len() && s[at] == 40 {
        Ok(skip_multispace(s, at + 1))
    } else {
        Err(unexpected(s, at))
    }
}

/// A closing parenthesis with optional whitespace on both sides.
pub open spec fn close_paren(s: Seq<u8>, pos: int) -> Result<int, Fail> {
    let at = skip_multispace(s, pos);
    if at < s.len() && s[at] == 41 {
        Ok(skip_multispace(s, at + 1))
    } else {
        Err(unexpected(s, at))
    }
}

/// Reads an opening parenthesis and the whitespace around it.
pub fn parse_open(input: &[u8], pos: usize) -> (out: Result<usize, (String, Span)>)
    requires
        pos <= input@.len(),
    ensures
        out matches Ok(end) ==> open_paren(input@, pos as int) == Ok::<int, Fail>(end as int)
            && pos < end <= input@.len(),
        out matches Err(e) ==> open_paren(input@, pos as int) == Err::<int, Fail>((e.0@, e.1)),
{
    let at = multispace0(input, pos);
    if at < input.len() && input[at] == 40 {
        Ok(multispace0(input, at + 1))
    } else {
        Err(fail_at(input, at))
    }
}

/// Reads a closing parenthesis and the whitespace around it.
pub fn parse_close(input: &[u8], pos: usize) -> (out: Result<usize, (String, Span)>)
    requires
        pos <= input@.len(),
    ensures
        out matches Ok(end) ==> close_paren(input@, pos as int) == Ok::<int, Fail>(end as int)
            && pos < end <= input@.len(),
        out matches Err(e) ==> close_paren(input@, pos as int) == Err::<int, Fail>((e.0@, e.1)),
{
    let at = multispace0(input, pos);
    if at < input.len() && input[at] == 41 {
        Ok(multispace0(input, at + 1))
    } else {
        Err(fail_at(input, at))
    }
}

/// A row of values put in front of what a rule found after them.
pub open spec fn prepend<T>(front: Seq<T>, found: Result<(Seq<T>, int), Fail>) -> Result<
    (Seq<T>, int),
    Fail,
> {
    match found {
        Ok((rest, stop)) => Ok((front + rest, stop)),
        Err(f) => Err(f),
    }
}


/// Whether the byte at `i` belongs to a comment: it stands on the line of a
/// `;` and not before it. The line feed that ends the line is no part of it.
pub open spec fn in_comment(s: Seq<u8>, i: int) -> bool
    decreases i,
{
    if 0 <= i < s.len() && s[i] != 10 {
        if s[i] == 59 {
            true
        } else if i == 0 {
            false
        } else {
            in_comment(s, i - 1)
        }
    } else {
        false
    }
}

/// The input with every comment byte replaced by a space, so that every
/// other byte keeps its offset.
pub open spec fn without_comments(s: Seq<u8>) -> Seq<u8> {
    Seq::new(s.len(), |i: int| if in_comment(s, i) { 32u8 } else { s[i] })
}

/// Replaces every comment byte by a space.
pub fn remove_comments(input: &[u8]) -> (out: Vec<u8>)
    ensures
        out@ == without_comments(input@),
{
    let mut out: Vec<u8> = Vec::new();
    let mut inside = false;
    let mut i: usize = 0;
    while i < input.len()
        invariant
            0 <= i <= input@.len(),
            inside == in_comment(input@, i - 1),
            out@ == without_comments(input@).take(i as int),
        decreases input@.len() - i,
    {
        let b = input[i];
        inside = b != 10 && (b == 59 || inside);
        if inside {
            out.push(32);
        } else {
            out.push(b);
        }
        i += 1;
        assert(out@ =~= without_comments(input@).take(i as int));
    }
    assert(out@ =~= without_comments(input@));
    out
}

/// How many line feeds stand before `upto`.
pub open spec fn newlines(s: Seq<u8>, upto: int) -> int
    decreases upto,
{
    if upto <= 0 || upto > s.len() {
        0
    } else if s[upto - 1] == 10 {
        newlines(s, upto - 1) + 1
    } else {
        newlines(s, upto - 1)
    }
}

/// The number of the line that holds the byte at `offset`, counting from 1.
/// An offset behind the input counts as its end.
pub open spec fn line_number(s: Seq<u8>, offset: int) -> int {
    1 + newlines(s, if offset <= s.len() { offset } else { s.len() as int })
}

/// Counts the line that holds the byte at `offset`.
pub fn line_num(input: &str, offset: usize) -> (out: usize)
    requires
        input.spec_bytes().len() < usize::MAX,
    ensures
        out == line_number(input.spec_bytes(), offset as int),
{
    let bytes = input.as_bytes();
    let upto = if offset <= bytes.len() { offset } else { bytes.len() };
    let mut line: usize = 1;
    let mut i: usize = 0;
    while i < upto
        invariant
            0 <= i <= upto <= bytes@.len() < usize::MAX,
            line == 1 + newlines(bytes@, i as int),
            line <= i + 1,
        decreases upto - i,
    {
        if bytes[i] == 10 {
            line += 1;
        }
        i += 1;
    }
    line
}

/// What is left of the input from `pos` on.
pub fn remainder<'a>(input: &'a [u8], pos: usize) -> (out: &'a [u8])
    requires
        pos <= input@.len(),
    ensures
        out@ == input@.skip(pos as int),
{
    vstd::slice::slice_subrange(input, pos, input.len())
}


/// Where the name at `pos` ends if it spells the keyword, letter case aside.
pub open spec fn keyword_at(s: Seq<u8>, pos: int, kw: Seq<char>) -> Option<int> {
    match named(s, pos) {
        Some((_, end)) => if same_word(s.subrange(pos, end), kw) {
            Some(end)
        } else {
            None
        },
        None => None,
    }
}

/// Where the tag at `pos` ends if it is a colon and then the keyword,
/// letter case aside.
pub open spec fn tag_at(s: Seq<u8>, pos: int, kw: Seq<char>) -> Option<int> {
    if 0 <= pos < s.len() && s[pos] == 58 && same_word(
        s.subrange(pos + 1, name_end(s, pos + 1)),
        kw,
    ) {
        Some(name_end(s, pos + 1))
    } else {
        None
    }
}

/// Reads the name at `pos` if it spells the keyword.
pub fn parse_keyword(input: &[u8], pos: usize, kw: &str) -> (out: Option<usize>)
    requires
        pos <= input@.len(),
    ensures
        out matches Some(end) ==> keyword_at(input@, pos as int, kw@) == Some(end as int) && pos
            < end <= input@.len(),
        out is None ==> keyword_at(input@, pos as int, kw@) is None,
{
    if pos < input.len() && is_name_start_byte(input[pos]) {
        let end = scan_name(input, pos + 1);
        if word_is(input, pos, end, kw) {
            Some(end)
        } else {
            None
        }
    } else {
        None
    }
}

/// Reads the tag at `pos` if it spells the keyword behind its colon.
pub fn parse_tag(input: &[u8], pos: usize, kw: &str) -> (out: Option<usize>)
    requires
        pos <= input@.len(),
    ensures
        out matches Some(end) ==> tag_at(input@, pos as int, kw@) == Some(end as int) && pos
            < end <= input@.len(),
        out is None ==> tag_at(input@, pos as int, kw@) is None,
{
    if pos < input.len() && input[pos] == 58 {
        let end = scan_name(input, pos + 1);
        if word_is(input, pos + 1, end, kw) {
            Some(end)
        } else {
            None
        }
    } else {
        None
    }
}


/// Copies a row of names.
pub fn copy_names(row: &Vec<String>) -> (out: Vec<String>)
    ensures
        strings(out@) == strings(row@),
{
    let mut out: Vec<String> = Vec::new();
    let mut i: usize = 0;
    while i < row.len()
        invariant
            0 <= i <= row@.len(),
            strings(out@) == strings(row@).take(i as int),
        decreases row@.len() - i,
    {
        let ghost before = out@;
        let name = row[i].clone();
        out.push(name);
        i += 1;
        proof {
            assert(strings(out@) =~= strings(before).push(row@[i - 1]@));
            assert(strings(row@).take(i as int) =~= strings(row@).take(i - 1).push(row@[i - 1]@));
        }
    }
    assert(strings(row@).take(i as int) =~= strings(row@));
    out
}

/// Names as they are written in a row: each after one space.
pub open spec fn listed(row: Seq<Seq<char>>) -> Seq<char>
    decreases row.len(),
{
    if row.len() == 0 {
        Seq::empty()
    } else {
        " "@ + row[0] + listed(row.drop_first())
    }
}

/// Appends the names to `out`, each after one space.
pub fn push_listed(out: &mut String, row: &Vec<String>)
    ensures
        final(out)@ == old(out)@ + listed(strings(row@)),
{
    let mut j: usize = 0;
    proof {
        assert(strings(row@).skip(0) =~= strings(row@));
    }
    while j < row.len()
        invariant
            0 <= j <= row@.len(),
            out@ + listed(strings(row@).skip(j as int)) == old(out)@ + listed(strings(row@)),
        decreases row@.len() - j,
    {
        let ghost left = strings(row@).skip(j as int);
        let ghost so_far = out@;
        out.append(" ");
        out.append(row[j].as_str());
        j += 1;
        proof {
            assert(left.drop_first() =~= strings(row@).skip(j as int));
            assert(left[0] == row@[j - 1]@);
            assert(out@ + listed(left.drop_first()) =~= so_far + listed(left));
        }
    }
    proof {
        assert(listed(strings(row@).skip(j as int)) =~= Seq::<char>::empty());
        assert(out@ + Seq::<char>::empty() =~= out@);
    }
}

} // verus!
