//! Span re-anchoring: mapping a byte-offset span recorded relative to an
//! embedded literal onto an absolute line/column range in the host file.

use vstd::prelude::*;

verus! {

/// A half-open byte-offset interval within some text.
#[derive(Clone, Copy, PartialEq, Eq, Structural, Debug)]
pub struct Span {
    pub start: usize,
    pub end: usize,
}

/// An absolute line/column position in a host file.
#[derive(Clone, Copy, PartialEq, Eq, Structural, Debug)]
pub struct TextPosition {
    pub line: usize,
    pub character: usize,
}

/// An absolute start/end position pair in a host file.
#[derive(Clone, Copy, PartialEq, Eq, Structural, Debug)]
pub struct TextRange {
    pub start: TextPosition,
    pub end: TextPosition,
}

/// The absolute starting position of an embedded literal inside its host
/// file, together with the literal's raw text.
pub struct EmbeddedLiteralAnchor {
    pub position: TextPosition,
    pub text: Vec<u8>,
}

impl EmbeddedLiteralAnchor {
    /// Machine limit: any position shifted by a delta taken from within
    /// the literal's text must still fit in `usize`.
    pub open spec fn wf(self) -> bool {
        &&& self.position.line + self.text@.len() <= usize::MAX
        &&& self.position.character + self.text@.len() <= usize::MAX
    }
}

/// Number of line breaks in `text` strictly before byte offset `off`.
pub open spec fn line_delta(text: Seq<u8>, off: int) -> int
    recommends
        0 <= off <= text.len(),
    decreases off,
{
    if off <= 0 {
        0
    } else {
        line_delta(text, off - 1) + if text[off - 1] == 10 {
            1int
        } else {
            0int
        }
    }
}

/// Number of bytes between `off` and the closest line break before it
/// (or the start of the text when there is none).
pub open spec fn col_delta(text: Seq<u8>, off: int) -> int
    recommends
        0 <= off <= text.len(),
    decreases off,
{
    if off <= 0 {
        0
    } else if text[off - 1] == 10 {
        0
    } else {
        col_delta(text, off - 1) + 1
    }
}

pub proof fn lemma_delta_bounds(text: Seq<u8>, off: int)
    requires
        0 <= off,
    ensures
        0 <= line_delta(text, off) <= off,
        0 <= col_delta(text, off) <= off,
    decreases off,
{
    if off > 0 {
        lemma_delta_bounds(text, off - 1);
    }
}

/// Whether a half-open span lies within the bounds of `text`.
pub open spec fn span_in_bounds(text: Seq<u8>, span: Span) -> bool {
    span.start <= span.end && span.end <= text.len()
}

/// Adds a line/column delta onto an absolute position: the column delta
/// counts from the anchor's column only when the offset stays on the
/// anchor's own line; on a later line it counts from that line's start.
pub open spec fn shift_position(position: TextPosition, dl: int, dc: int) -> TextPosition {
    if dl == 0 {
        TextPosition { line: position.line, character: (position.character + dc) as usize }
    } else {
        TextPosition { line: (position.line + dl) as usize, character: dc as usize }
    }
}

/// The absolute range of an in-bounds span of the literal anchored at
/// `position` with text `text`.
pub open spec fn reanchored_range(position: TextPosition, text: Seq<u8>, span: Span) -> TextRange {
    TextRange {
        start: shift_position(
            position,
            line_delta(text, span.start as int),
            col_delta(text, span.start as int),
        ),
        end: shift_position(
            position,
            line_delta(text, span.end as int),
            col_delta(text, span.end as int),
        ),
    }
}

fn offset_to_delta(text: &Vec<u8>, off: usize) -> (r: (usize, usize))
    requires
        off <= text@.len(),
    ensures
        r.0 == line_delta(text@, off as int),
        r.1 == col_delta(text@, off as int),
{
    let mut lines: usize = 0;
    let mut col: usize = 0;
    let mut i: usize = 0;
    while i < off
        invariant
            i <= off,
            off <= text@.len(),
            lines == line_delta(text@, i as int),
            col == col_delta(text@, i as int),
            lines <= i,
            col <= i,
        decreases off - i,
    {
        if text[i] == 10u8 {
            lines = lines + 1;
            col = 0;
        } else {
            col = col + 1;
        }
        i = i + 1;
    }
    (lines, col)
}

fn shift(position: TextPosition, dl: usize, dc: usize) -> (r: TextPosition)
    requires
        position.line + dl <= usize::MAX,
        position.character + dc <= usize::MAX,
    ensures
        r == shift_position(position, dl as int, dc as int),
{
    if dl == 0 {
        TextPosition { line: position.line, character: position.character + dc }
    } else {
        TextPosition { line: position.line + dl, character: dc }
    }
}

/// Offset of the first line break in `text` at or after `from`, or the
/// text's length when no line break remains.
pub open spec fn next_newline(text: Seq<u8>, from: int) -> int
    recommends
        0 <= from <= text.len(),
    decreases text.len() - from,
{
    if from < 0 || from >= text.len() {
        text.len() as int
    } else if text[from] == 10 {
        from
    } else {
        next_newline(text, from + 1)
    }
}

/// Byte offset at which line `k` of `text` begins (line 0 begins at 0;
/// line `k` begins one past the `k`-th line break).
pub open spec fn line_start(text: Seq<u8>, k: int) -> int
    decreases k,
{
    if k <= 0 {
        0
    } else {
        next_newline(text, line_start(text, k - 1)) + 1
    }
}

/// The byte offset denoted by a line/column delta within `text`.
pub open spec fn delta_to_offset(text: Seq<u8>, dl: int, dc: int) -> int {
    line_start(text, dl) + dc
}

/// The line/column delta of an absolute position relative to an anchor
/// position: the inverse of `shift_position`.
pub open spec fn position_delta(anchor: TextPosition, pos: TextPosition) -> (int, int) {
    if pos.line == anchor.line {
        (0int, pos.character - anchor.character)
    } else {
        (pos.line - anchor.line, pos.character as int)
    }
}

/// The byte-offset pair recovered from an absolute range, the anchor it
/// was produced against, and the literal's text: the inverse transform
/// of `reanchored_range`.
pub open spec fn derived_offsets(position: TextPosition, text: Seq<u8>, range: TextRange) -> (
    int,
    int,
) {
    (
        delta_to_offset(text, position_delta(position, range.start).0, position_delta(position, range.start).1),
        delta_to_offset(text, position_delta(position, range.end).0, position_delta(position, range.end).1),
    )
}

proof fn lemma_no_newline_in_line(text: Seq<u8>, off: int)
    requires
        0 <= off <= text.len(),
    ensures
        forall|j: int| off - col_delta(text, off) <= j < off ==> text[j] != 10,
    decreases off,
{
    lemma_delta_bounds(text, off);
    if off > 0 {
        lemma_no_newline_in_line(text, off - 1);
        lemma_delta_bounds(text, off - 1);
    }
}

proof fn lemma_next_newline_hits(text: Seq<u8>, a: int, b: int)
    requires
        0 <= a <= b < text.len(),
        text[b] == 10,
        forall|j: int| a <= j < b ==> text[j] != 10,
    ensures
        next_newline(text, a) == b,
    decreases b - a,
{
    if a < b {
        lemma_next_newline_hits(text, a + 1, b);
    }
}

proof fn lemma_offset_recovered(text: Seq<u8>, off: int)
    requires
        0 <= off <= text.len(),
    ensures
        delta_to_offset(text, line_delta(text, off), col_delta(text, off)) == off,
    decreases off,
{
    lemma_delta_bounds(text, off);
    if off > 0 {
        lemma_offset_recovered(text, off - 1);
        lemma_delta_bounds(text, off - 1);
        if text[off - 1] == 10 {
            lemma_no_newline_in_line(text, off - 1);
            lemma_next_newline_hits(text, off - 1 - col_delta(text, off - 1), off - 1);
        }
    }
}

/// Re-anchoring round trip: the range produced from an in-bounds span,
/// taken together with the anchor position and the literal's text,
/// determines that span exactly — the inverse transform recovers both
/// offsets.
pub proof fn lemma_reanchor_round_trip(anchor: EmbeddedLiteralAnchor, span: Span)
    requires
        anchor.wf(),
        span_in_bounds(anchor.text@, span),
    ensures
        derived_offsets(
            anchor.position,
            anchor.text@,
            reanchored_range(anchor.position, anchor.text@, span),
        ) == (span.start as int, span.end as int),
{
    lemma_delta_bounds(anchor.text@, span.start as int);
    lemma_delta_bounds(anchor.text@, span.end as int);
    lemma_offset_recovered(anchor.text@, span.start as int);
    lemma_offset_recovered(anchor.text@, span.end as int);
}

/// Computes the absolute range of `span`, which was recorded relative to
/// the embedded literal described by `anchor`. Fails exactly when the
/// span does not lie within the literal's text: an out-of-bounds span is
/// never clamped.
pub fn reanchor_span(anchor: &EmbeddedLiteralAnchor, span: Span) -> (r: Option<TextRange>)
    requires
        anchor.wf(),
    ensures
        span_in_bounds(anchor.text@, span) ==> r == Some(
            reanchored_range(anchor.position, anchor.text@, span),
        ),
        !span_in_bounds(anchor.text@, span) ==> r == None::<TextRange>,
{
    if span.start <= span.end && span.end <= anchor.text.len() {
        proof {
            lemma_delta_bounds(anchor.text@, span.start as int);
            lemma_delta_bounds(anchor.text@, span.end as int);
        }
        let (dl_start, dc_start) = offset_to_delta(&anchor.text, span.start);
        let (dl_end, dc_end) = offset_to_delta(&anchor.text, span.end);
        Some(
            TextRange {
                start: shift(anchor.position, dl_start, dc_start),
                end: shift(anchor.position, dl_end, dc_end),
            },
        )
    } else {
        None
    }
}

} // verus!
