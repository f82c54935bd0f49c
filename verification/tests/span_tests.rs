use query_refs::span::{EmbeddedLiteralAnchor, Span, TextPosition, TextRange};
use query_refs::span::reanchor_span;

fn anchor_at(line: usize, character: usize, text: Vec<u8>) -> EmbeddedLiteralAnchor {
    EmbeddedLiteralAnchor { position: TextPosition { line, character }, text }
}

#[test]
fn reanchor_same_line_adds_columns() {
    // No line break before offset 7, so the anchor's own column shifts.
    let anchor = anchor_at(3, 2, b"fragment F on T".to_vec());
    let range = reanchor_span(&anchor, Span { start: 7, end: 11 }).unwrap();
    assert_eq!(range.start, TextPosition { line: 3, character: 9 });
    assert_eq!(range.end, TextPosition { line: 3, character: 13 });
}

#[test]
fn reanchor_later_line_uses_literal_columns() {
    // Line breaks at offsets 4 and 9: offset 12 sits on literal line 2,
    // column 2, so the anchor's column no longer applies.
    let anchor = anchor_at(10, 6, b"aaaa\nbbbb\ncccc".to_vec());
    let range = reanchor_span(&anchor, Span { start: 12, end: 14 }).unwrap();
    assert_eq!(range.start, TextPosition { line: 12, character: 2 });
    assert_eq!(range.end, TextPosition { line: 12, character: 4 });
}

#[test]
fn reanchor_span_straddling_lines() {
    let anchor = anchor_at(5, 4, b"ab\ncdef".to_vec());
    let range = reanchor_span(&anchor, Span { start: 1, end: 5 }).unwrap();
    // Start on the anchor's line, end past the line break.
    assert_eq!(range.start, TextPosition { line: 5, character: 5 });
    assert_eq!(range.end, TextPosition { line: 6, character: 2 });
}

#[test]
fn reanchor_empty_span_on_empty_text() {
    let anchor = anchor_at(2, 8, Vec::new());
    let range = reanchor_span(&anchor, Span { start: 0, end: 0 }).unwrap();
    assert_eq!(
        range,
        TextRange {
            start: TextPosition { line: 2, character: 8 },
            end: TextPosition { line: 2, character: 8 },
        }
    );
}

#[test]
fn reanchor_span_ending_at_text_length() {
    let anchor = anchor_at(0, 0, b"xyz".to_vec());
    let range = reanchor_span(&anchor, Span { start: 0, end: 3 }).unwrap();
    assert_eq!(range.start, TextPosition { line: 0, character: 0 });
    assert_eq!(range.end, TextPosition { line: 0, character: 3 });
}

#[test]
fn reanchor_out_of_bounds_end_fails() {
    let anchor = anchor_at(0, 0, b"xyz".to_vec());
    assert_eq!(reanchor_span(&anchor, Span { start: 0, end: 4 }), None);
}

#[test]
fn reanchor_inverted_span_fails() {
    let anchor = anchor_at(0, 0, b"xyz".to_vec());
    assert_eq!(reanchor_span(&anchor, Span { start: 2, end: 1 }), None);
}

#[test]
fn reanchor_never_clamps() {
    // One byte out of bounds: the result is a failure, not the range of
    // the clamped span [0, 5).
    let anchor = anchor_at(0, 0, b"hello".to_vec());
    assert!(reanchor_span(&anchor, Span { start: 0, end: 6 }).is_none());
}

#[test]
fn reanchor_round_trip_recovers_offsets() {
    // Re-derive the span from the range and the anchor: the line delta
    // picks the literal line, the column delta the byte within it.
    let text = b"aaaa\nbbbb\ncccc".to_vec();
    let anchor = anchor_at(7, 3, text.clone());
    let span = Span { start: 6, end: 13 };
    let range = reanchor_span(&anchor, span).unwrap();

    let recover = |pos: TextPosition| -> usize {
        let (lines, col) = if pos.line == anchor.position.line {
            (0, pos.character - anchor.position.character)
        } else {
            (pos.line - anchor.position.line, pos.character)
        };
        let mut line_start: usize = 0;
        let mut seen: usize = 0;
        for (i, b) in text.iter().enumerate() {
            if seen == lines {
                break;
            }
            if *b == b'\n' {
                seen += 1;
                line_start = i + 1;
            }
        }
        line_start + col
    };
    assert_eq!(recover(range.start), span.start);
    assert_eq!(recover(range.end), span.end);
}
