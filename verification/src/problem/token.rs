//! The tokens of problem and plan files.

use vstd::prelude::*;
use vstd::string::StringExecFns;
use crate::shared::{
    char_end, is_multispace, is_name_start, is_name_start_byte, lemma_name_end, make_text, name_end,
    prepend, same_word, scan_char, scan_name, strings, text, word_is, Fail, Span,
};

verus! {

/// The tokens: parentheses, keywords, the type separator and names.
#[derive(Debug, PartialEq, Eq, Clone, Copy, Structural)]
pub enum Token {
    LParen,
    RParen,
    Definition,
    ProblemName,
    DomainName,
    Objects,
    Init,
    Goal,
    And,
    Or,
    Not,
    TypeSeparator,
    Name,
}

/// What the lexer finds: the end of the input, a run that is no token, or a
/// token.
#[derive(Debug, PartialEq, Eq, Clone, Copy, Structural)]
pub enum Kind {
    End,
    Malformed,
    Found(Token),
}

/// A lexer result with the bytes it covers.
#[derive(Debug, PartialEq, Eq, Clone, Copy, Structural)]
pub struct Lexeme {
    pub kind: Kind,
    pub span: Span,
}

/// The first position at or after `pos` that holds a line feed, or the end.
pub open spec fn line_end(s: Seq<u8>, pos: int) -> int
    decreases s.len() - pos,
{
    if 0 <= pos < s.len() && s[pos] != 10 {
        line_end(s, pos + 1)
    } else {
        pos
    }
}

/// The first position at or after `pos` that is neither whitespace nor part
/// of a comment, which runs from `;` to the end of its line.
pub open spec fn skip_trivia(s: Seq<u8>, pos: int) -> int
    decreases s.len() - pos,
{
    if 0 <= pos < s.len() && is_multispace(s[pos]) {
        skip_trivia(s, pos + 1)
    } else if 0 <= pos < s.len() && s[pos] == 59 {
        let end = line_end(s, pos + 1);
        if pos < end <= s.len() {
            skip_trivia(s, end)
        } else {
            pos
        }
    } else {
        pos
    }
}

/// The keyword that a whole name spells, letter case aside.
pub open spec fn keyword(word: Seq<u8>) -> Token {
    if same_word(word, "define"@) {
        Token::Definition
    } else if same_word(word, "problem"@) {
        Token::ProblemName
    } else if same_word(word, "and"@) {
        Token::And
    } else if same_word(word, "or"@) {
        Token::Or
    } else if same_word(word, "not"@) {
        Token::Not
    } else {
        Token::Name
    }
}

/// The section that the name behind a colon spells, letter case aside.
pub open spec fn section(word: Seq<u8>) -> Kind {
    if same_word(word, "domain"@) {
        Kind::Found(Token::DomainName)
    } else if same_word(word, "objects"@) {
        Kind::Found(Token::Objects)
    } else if same_word(word, "init"@) {
        Kind::Found(Token::Init)
    } else if same_word(word, "goal"@) {
        Kind::Found(Token::Goal)
    } else {
        Kind::Malformed
    }
}

/// The token that starts at `at`, where no whitespace or comment stands.
pub open spec fn token_at(s: Seq<u8>, at: int) -> Lexeme {
    if at >= s.len() {
        Lexeme { kind: Kind::End, span: Span { start: s.len() as usize, end: s.len() as usize } }
    } else if s[at] == 40 {
        Lexeme { kind: Kind::Found(Token::LParen), span: Span { start: at as usize, end: (at + 1) as usize } }
    } else if s[at] == 41 {
        Lexeme { kind: Kind::Found(Token::RParen), span: Span { start: at as usize, end: (at + 1) as usize } }
    } else if s[at] == 45 {
        Lexeme {
            kind: Kind::Found(Token::TypeSeparator),
            span: Span { start: at as usize, end: (at + 1) as usize },
        }
    } else if s[at] == 58 {
        let end = name_end(s, at + 1);
        Lexeme {
            kind: section(s.subrange(at + 1, end)),
            span: Span { start: at as usize, end: end as usize },
        }
    } else if is_name_start(s[at]) {
        let end = name_end(s, at + 1);
        Lexeme {
            kind: Kind::Found(keyword(s.subrange(at, end))),
            span: Span { start: at as usize, end: end as usize },
        }
    } else {
        Lexeme {
            kind: Kind::Malformed,
            span: Span { start: at as usize, end: char_end(s, at + 1) as usize },
        }
    }
}

/// The next token at or after `pos`, whitespace and comments skipped.
pub open spec fn scan(s: Seq<u8>, pos: int) -> Lexeme {
    token_at(s, skip_trivia(s, pos))
}

/// The text of the name that a lexeme covers.
pub open spec fn lexeme_text(s: Seq<u8>, l: Lexeme) -> Seq<char> {
    text(s.subrange(l.span.start as int, l.span.end as int))
}

/// Skips whitespace and comments.
pub fn trivia(input: &[u8], pos: usize) -> (end: usize)
    requires
        pos <= input@.len(),
    ensures
        end == skip_trivia(input@, pos as int),
        pos <= end <= input@.len(),
{
    let mut cur: usize = pos;
    loop
        invariant
            pos <= cur <= input@.len(),
            skip_trivia(input@, pos as int) == skip_trivia(input@, cur as int),
        decreases input@.len() - cur,
    {
        if cur >= input.len() {
            return cur;
        }
        let b = input[cur];
        if b == 32 || b == 9 || b == 13 || b == 10 || b == 12 {
            cur += 1;
        } else if b == 59 {
            let ghost from = cur;
            cur += 1;
            while cur < input.len() && input[cur] != 10
                invariant
                    from < cur <= input@.len(),
                    line_end(input@, from + 1) == line_end(input@, cur as int),
                decreases input@.len() - cur,
            {
                cur += 1;
            }
        } else {
            return cur;
        }
    }
}

/// Tells which keyword a whole name spells, if any.
pub fn keyword_of(input: &[u8], start: usize, end: usize) -> (out: Token)
    requires
        start <= end <= input@.len(),
    ensures
        out == keyword(input@.subrange(start as int, end as int)),
{
    if word_is(input, start, end, "define") {
        Token::Definition
    } else if word_is(input, start, end, "problem") {
        Token::ProblemName
    } else if word_is(input, start, end, "and") {
        Token::And
    } else if word_is(input, start, end, "or") {
        Token::Or
    } else if word_is(input, start, end, "not") {
        Token::Not
    } else {
        Token::Name
    }
}

/// Tells which section the name behind a colon spells, if any.
pub fn section_of(input: &[u8], start: usize, end: usize) -> (out: Kind)
    requires
        start <= end <= input@.len(),
    ensures
        out == section(input@.subrange(start as int, end as int)),
{
    if word_is(input, start, end, "domain") {
        Kind::Found(Token::DomainName)
    } else if word_is(input, start, end, "objects") {
        Kind::Found(Token::Objects)
    } else if word_is(input, start, end, "init") {
        Kind::Found(Token::Init)
    } else if word_is(input, start, end, "goal") {
        Kind::Found(Token::Goal)
    } else {
        Kind::Malformed
    }
}

/// Reads the next token at or after `pos`.
pub fn next_token(input: &[u8], pos: usize) -> (out: Lexeme)
    requires
        pos <= input@.len(),
    ensures
        out == scan(input@, pos as int),
        pos <= out.span.start <= out.span.end <= input@.len(),
        !(out.kind is End) ==> pos < out.span.end,
{
    let at = trivia(input, pos);
    if at >= input.len() {
        return Lexeme { kind: Kind::End, span: Span { start: input.len(), end: input.len() } };
    }
    let b = input[at];
    if b == 40 {
        Lexeme { kind: Kind::Found(Token::LParen), span: Span { start: at, end: at + 1 } }
    } else if b == 41 {
        Lexeme { kind: Kind::Found(Token::RParen), span: Span { start: at, end: at + 1 } }
    } else if b == 45 {
        Lexeme { kind: Kind::Found(Token::TypeSeparator), span: Span { start: at, end: at + 1 } }
    } else if b == 58 {
        let end = scan_name(input, at + 1);
        Lexeme { kind: section_of(input, at + 1, end), span: Span { start: at, end } }
    } else if is_name_start_byte(b) {
        let end = scan_name(input, at + 1);
        Lexeme { kind: Kind::Found(keyword_of(input, at, end)), span: Span { start: at, end } }
    } else {
        Lexeme { kind: Kind::Malformed, span: Span { start: at, end: scan_char(input, at + 1) } }
    }
}

/// Copies the text that a lexeme covers.
pub fn lexeme_string(input: &[u8], l: Lexeme) -> (out: String)
    requires
        l.span.start <= l.span.end <= input@.len(),
    ensures
        out@ == lexeme_text(input@, l),
{
    make_text(input, l.span.start, l.span.end)
}


/// The failure reported for a lexeme that no rule can take.
pub open spec fn stop(l: Lexeme) -> Fail {
    if l.kind is End {
        ("unexpected end of input"@, l.span)
    } else {
        ("unexpected token"@, l.span)
    }
}

/// Makes the failure for a lexeme that no rule can take.
pub fn stopped(l: Lexeme) -> (out: (String, Span))
    ensures
        (out.0@, out.1) == stop(l),
{
    match l.kind {
        Kind::End => ("unexpected end of input".to_owned(), l.span),
        _ => ("unexpected token".to_owned(), l.span),
    }
}

/// The names up to the closing parenthesis, which is consumed.
pub open spec fn arguments(s: Seq<u8>, pos: int) -> Result<(Seq<Seq<char>>, int), Fail>
    decreases s.len() - pos,
{
    let l = scan(s, pos);
    match l.kind {
        Kind::Found(Token::Name) => if pos < l.span.end <= s.len() {
            prepend(seq![lexeme_text(s, l)], arguments(s, l.span.end as int))
        } else {
            Err(stop(l))
        },
        Kind::Found(Token::RParen) => Ok((Seq::empty(), l.span.end as int)),
        _ => Err(stop(l)),
    }
}

/// A name and the names up to the closing parenthesis: what follows the
/// opening parenthesis of a plan step or a fact.
pub open spec fn call(s: Seq<u8>, pos: int) -> Result<((Seq<char>, Seq<Seq<char>>), int), Fail> {
    let l = scan(s, pos);
    match l.kind {
        Kind::Found(Token::Name) => match arguments(s, l.span.end as int) {
            Ok((found, end)) => Ok(((lexeme_text(s, l), found), end)),
            Err(f) => Err(f),
        },
        _ => Err(stop(l)),
    }
}

/// Parses the names up to the closing parenthesis.
pub fn parse_arguments(input: &[u8], pos: usize) -> (out: Result<
    (Vec<String>, usize),
    (String, Span),
>)
    requires
        pos <= input@.len(),
    ensures
        out matches Ok(r) ==> arguments(input@, pos as int) == Ok::<_, Fail>(
            (strings(r.0@), r.1 as int),
        ) && pos < r.1 <= input@.len(),
        out matches Err(e) ==> arguments(input@, pos as int) == Err::<(Seq<Seq<char>>, int), _>(
            (e.0@, e.1),
        ),
{
    let mut found: Vec<String> = Vec::new();
    let mut cur: usize = pos;
    loop
        invariant
            pos <= cur <= input@.len(),
            arguments(input@, pos as int) == prepend(
                strings(found@),
                arguments(input@, cur as int),
            ),
        decreases input@.len() - cur,
    {
        let l = next_token(input, cur);
        match l.kind {
            Kind::Found(Token::Name) => {
                let name = lexeme_string(input, l);
                proof {
                    if let Ok((more, end)) = arguments(input@, l.span.end as int) {
                        assert(strings(found@.push(name)) + more =~= strings(found@) + (seq![
                            name@,
                        ] + more));
                    }
                }
                found.push(name);
                cur = l.span.end;
            },
            Kind::Found(Token::RParen) => {
                proof {
                    assert(strings(found@) + Seq::<Seq<char>>::empty() =~= strings(found@));
                }
                return Ok((found, l.span.end));
            },
            _ => {
                return Err(stopped(l));
            },
        }
    }
}

/// Parses a name and the names up to the closing parenthesis.
pub fn parse_call(input: &[u8], pos: usize) -> (out: Result<
    ((String, Vec<String>), usize),
    (String, Span),
>)
    requires
        pos <= input@.len(),
    ensures
        out matches Ok(r) ==> call(input@, pos as int) == Ok::<_, Fail>(
            ((r.0.0@, strings(r.0.1@)), r.1 as int),
        ) && pos < r.1 <= input@.len(),
        out matches Err(e) ==> call(input@, pos as int) == Err::<
            ((Seq<char>, Seq<Seq<char>>), int),
            _,
        >((e.0@, e.1)),
{
    let l = next_token(input, pos);
    match l.kind {
        Kind::Found(Token::Name) => {
            let name = lexeme_string(input, l);
            match parse_arguments(input, l.span.end) {
                Ok((found, end)) => Ok(((name, found), end)),
                Err(e) => Err(e),
            }
        },
        _ => Err(stopped(l)),
    }
}


/// How a token is shown in a message: punctuation as it is written, a
/// keyword by what it stands for, a name by its text.
pub open spec fn token_text(s: Seq<u8>, l: Lexeme) -> Seq<char> {
    match l.kind {
        Kind::Found(Token::LParen) => "("@,
        Kind::Found(Token::RParen) => ")"@,
        Kind::Found(Token::Definition) => "DEFINITION"@,
        Kind::Found(Token::ProblemName) => "PROBLEM_NAME"@,
        Kind::Found(Token::DomainName) => "DOMAIN_NAME"@,
        Kind::Found(Token::Objects) => "OBJECT_LIST"@,
        Kind::Found(Token::Init) => "INIT_LIST"@,
        Kind::Found(Token::Goal) => "GOAL_CONDITION"@,
        Kind::Found(Token::And) => "AND"@,
        Kind::Found(Token::Or) => "OR"@,
        Kind::Found(Token::Not) => "NOT"@,
        Kind::Found(Token::TypeSeparator) => "TYPE_SEPARATOR"@,
        _ => lexeme_text(s, l),
    }
}

/// Shows a token as messages show it.
pub fn describe(input: &[u8], l: Lexeme) -> (out: String)
    requires
        l.span.start <= l.span.end <= input@.len(),
    ensures
        out@ == token_text(input@, l),
{
    match l.kind {
        Kind::Found(Token::LParen) => "(".to_owned(),
        Kind::Found(Token::RParen) => ")".to_owned(),
        Kind::Found(Token::Definition) => "DEFINITION".to_owned(),
        Kind::Found(Token::ProblemName) => "PROBLEM_NAME".to_owned(),
        Kind::Found(Token::DomainName) => "DOMAIN_NAME".to_owned(),
        Kind::Found(Token::Objects) => "OBJECT_LIST".to_owned(),
        Kind::Found(Token::Init) => "INIT_LIST".to_owned(),
        Kind::Found(Token::Goal) => "GOAL_CONDITION".to_owned(),
        Kind::Found(Token::And) => "AND".to_owned(),
        Kind::Found(Token::Or) => "OR".to_owned(),
        Kind::Found(Token::Not) => "NOT".to_owned(),
        Kind::Found(Token::TypeSeparator) => "TYPE_SEPARATOR".to_owned(),
        _ => lexeme_string(input, l),
    }
}

/// A message around the way a token is shown.
pub open spec fn quoted(before: Seq<char>, s: Seq<u8>, l: Lexeme) -> Seq<char> {
    before + token_text(s, l) + "'"@
}

/// Makes a message around the way a token is shown.
pub fn quote(before: &str, input: &[u8], l: Lexeme) -> (out: String)
    requires
        l.span.start <= l.span.end <= input@.len(),
    ensures
        out@ == quoted(before@, input@, l),
{
    let shown = describe(input, l);
    before.to_owned().concat(shown.as_str()).concat("'")
}


/// Keywords are recognised whatever the case of their letters: two words
/// that differ in letter case only spell the same keyword, and the same
/// section.
pub proof fn lemma_keywords_ignore_case(a: Seq<u8>, b: Seq<u8>)
    requires
        a.len() == b.len(),
        forall|i: int| 0 <= i < a.len() ==> crate::shared::fold(#[trigger] a[i])
            == crate::shared::fold(b[i]),
    ensures
        keyword(a) == keyword(b),
        section(a) == section(b),
{
    crate::shared::lemma_same_word_case(a, b, "define"@);
    crate::shared::lemma_same_word_case(a, b, "problem"@);
    crate::shared::lemma_same_word_case(a, b, "and"@);
    crate::shared::lemma_same_word_case(a, b, "or"@);
    crate::shared::lemma_same_word_case(a, b, "not"@);
    crate::shared::lemma_same_word_case(a, b, "domain"@);
    crate::shared::lemma_same_word_case(a, b, "objects"@);
    crate::shared::lemma_same_word_case(a, b, "init"@);
    crate::shared::lemma_same_word_case(a, b, "goal"@);
}

/// A line ends at or behind where it was looked for, inside the input.
pub proof fn lemma_line_end(s: Seq<u8>, pos: int)
    requires
        0 <= pos <= s.len(),
    ensures
        pos <= line_end(s, pos) <= s.len(),
    decreases s.len() - pos,
{
    if pos < s.len() && s[pos] != 10 {
        lemma_line_end(s, pos + 1);
    }
}

/// Where skipping whitespace and comments ends, neither starts, so that
/// skipping again moves no further.
pub proof fn lemma_trivia_end(s: Seq<u8>, pos: int)
    requires
        0 <= pos <= s.len(),
    ensures
        pos <= skip_trivia(s, pos) <= s.len(),
        skip_trivia(s, skip_trivia(s, pos)) == skip_trivia(s, pos),
    decreases s.len() - pos,
{
    if pos < s.len() && is_multispace(s[pos]) {
        lemma_trivia_end(s, pos + 1);
    } else if pos < s.len() && s[pos] == 59 {
        lemma_line_end(s, pos + 1);
        lemma_trivia_end(s, line_end(s, pos + 1));
    }
}

/// The next token is the same from a position and from behind the
/// whitespace and comments that start there.
pub proof fn lemma_scan_skips(s: Seq<u8>, pos: int)
    requires
        0 <= pos <= s.len(),
    ensures
        scan(s, pos) == scan(s, skip_trivia(s, pos)),
{
    lemma_trivia_end(s, pos);
}

/// A token ends behind where it was looked for, inside the input.
pub proof fn lemma_scan_advances(s: Seq<u8>, pos: int)
    requires
        0 <= pos <= s.len() <= usize::MAX,
    ensures
        pos <= scan(s, pos).span.start <= scan(s, pos).span.end <= s.len(),
        scan(s, pos).span.start == skip_trivia(s, pos),
        !(scan(s, pos).kind is End) ==> scan(s, pos).span.start < scan(s, pos).span.end,
{
    lemma_trivia_end(s, pos);
    let at = skip_trivia(s, pos);
    if at < s.len() {
        lemma_name_end(s, at + 1);
        crate::shared::lemma_char_end(s, at + 1);
    }
}

/// Arguments, once read, end behind where they were looked for.
pub proof fn lemma_arguments_advance(s: Seq<u8>, pos: int)
    requires
        0 <= pos <= s.len() <= usize::MAX,
    ensures
        arguments(s, pos) matches Ok(found) ==> pos < found.1 <= s.len(),
    decreases s.len() - pos,
{
    lemma_scan_advances(s, pos);
    let l = scan(s, pos);
    if l.kind == Kind::Found(Token::Name) && pos < l.span.end <= s.len() {
        lemma_arguments_advance(s, l.span.end as int);
    }
}

/// A call, once read, ends behind where it was looked for.
pub proof fn lemma_call_advances(s: Seq<u8>, pos: int)
    requires
        0 <= pos <= s.len() <= usize::MAX,
    ensures
        call(s, pos) matches Ok(found) ==> pos < found.1 <= s.len(),
{
    lemma_scan_advances(s, pos);
    let l = scan(s, pos);
    if l.kind == Kind::Found(Token::Name) {
        lemma_arguments_advance(s, l.span.end as int);
    }
}

} // verus!
