//! Failures shown against the source: where the excerpt starts and which
//! characters it marks, and the rendered text.

use vstd::prelude::*;
use vstd::string::{StrSliceExecFns, StringSliceAdditionalSpecFns};
use crate::shared::{line_num, line_number, Span};

verus! {

/// What the renderer is told of a failure: the number of the line that
/// holds its first byte, and the characters it covers.
#[derive(Debug, PartialEq, Eq, Clone, Copy, Structural)]
pub struct Excerpt {
    pub line_start: usize,
    pub start: usize,
    pub end: usize,
}

/// How many characters start before the byte at `upto`: the bytes before it
/// that are no UTF-8 continuation bytes.
pub open spec fn chars_before(s: Seq<u8>, upto: int) -> int
    decreases upto,
{
    if upto <= 0 || upto > s.len() {
        0
    } else if 128 <= s[upto - 1] && s[upto - 1] < 192 {
        chars_before(s, upto - 1)
    } else {
        chars_before(s, upto - 1) + 1
    }
}

/// The smaller of two numbers.
pub open spec fn least(a: int, b: int) -> int {
    if a <= b {
        a
    } else {
        b
    }
}

/// The excerpt for a span of bytes in a source of `chars` characters: byte
/// offsets become character offsets, none behind the last character, and
/// the end not before the start.
pub open spec fn excerpt_of(s: Seq<u8>, chars: int, span: Span) -> Excerpt {
    let start = least(chars_before(s, least(span.start as int, s.len() as int)), chars);
    let end = least(chars_before(s, least(span.end as int, s.len() as int)), chars);
    Excerpt {
        line_start: line_number(s, span.start as int) as usize,
        start: start as usize,
        end: if end < start {
            start as usize
        } else {
            end as usize
        },
    }
}

/// Counts the characters that start before the byte at `upto`.
pub fn char_offset(bytes: &[u8], upto: usize) -> (out: usize)
    requires
        upto <= bytes@.len(),
    ensures
        out == chars_before(bytes@, upto as int),
        out <= upto,
{
    let mut count: usize = 0;
    let mut i: usize = 0;
    while i < upto
        invariant
            0 <= i <= upto <= bytes@.len(),
            count == chars_before(bytes@, i as int),
            count <= i,
        decreases upto - i,
    {
        if !(128 <= bytes[i] && bytes[i] < 192) {
            count += 1;
        }
        i += 1;
    }
    count
}

/// Works out what the renderer is told of a failure at `span`.
pub fn excerpt(input: &str, span: Span) -> (out: Excerpt)
    requires
        input.spec_bytes().len() < usize::MAX,
    ensures
        out == excerpt_of(input.spec_bytes(), input@.len() as int, span),
        out.start <= out.end <= input@.len(),
        1 <= out.line_start <= input.spec_bytes().len() + 1,
{
    let bytes = input.as_bytes();
    let chars = input.unicode_len();
    let from = if span.start <= bytes.len() { span.start } else { bytes.len() };
    let to = if span.end <= bytes.len() { span.end } else { bytes.len() };
    let first = char_offset(bytes, from);
    let last = char_offset(bytes, to);
    let start = if first <= chars { first } else { chars };
    let end = if last <= chars { last } else { chars };
    proof {
        lemma_newlines_bound(bytes@, least(span.start as int, bytes@.len() as int));
    }
    Excerpt {
        line_start: line_num(input, span.start),
        start,
        end: if end < start { start } else { end },
    }
}

/// No more line feeds stand before a byte than bytes.
pub proof fn lemma_newlines_bound(s: Seq<u8>, upto: int)
    requires
        0 <= upto <= s.len(),
    ensures
        0 <= crate::shared::newlines(s, upto) <= upto,
    decreases upto,
{
    if upto > 0 {
        lemma_newlines_bound(s, upto - 1);
    }
}

/// `annotate_snippets::Renderer::render` on one slice that is the whole
/// source, folded, with one error annotation; the styled renderer writes
/// the result. Nothing is claimed of the text, whose colours differ between
/// platforms. The renderer refuses a range that ends more than one
/// character behind the source and subtracts the start from the end, so
/// both are asked to be in order and inside; the line number is counted up
/// once per line of the source.
#[verifier::external_body]
fn render_snippet(source: &str, label: &str, at: Excerpt) -> (out: String)
    requires
        at.start <= at.end <= source@.len() + 1,
        at.line_start <= source.spec_bytes().len() + 1,
{
    let marked = annotate_snippets::SourceAnnotation {
        range: (at.start, at.end),
        label,
        annotation_type: annotate_snippets::AnnotationType::Error,
    };
    let line_start = at.line_start;
    let slice =
        annotate_snippets::Slice { source, line_start, origin: None, annotations: vec![marked], fold: true };
    let snippet = annotate_snippets::Snippet { title: None, footer: vec![], slices: vec![slice] };
    format!("{}", annotate_snippets::Renderer::styled().render(snippet))
}

/// Renders a failure against the source it was found in. The renderer is
/// handed the whole source, the message as the label of one error, and what
/// `excerpt` gives for the span: the line number and the characters to
/// mark. The text is the renderer's own, and nothing is claimed of it.
pub fn render(input: &str, failure: &(String, Span)) -> (out: String)
    requires
        input.spec_bytes().len() < usize::MAX,
{
    let at = excerpt(input, failure.1);
    render_snippet(input, failure.0.as_str(), at)
}

} // verus!
