use neurographrag::chunking::{needs_chunking, split_into_chunks, try_split_into_chunks, CHUNK_OVERLAP_CHARS, CHUNK_SIZE_CHARS};

#[test]
fn test_short_body_no_chunking() {
    let body = "short text";
    assert!(!needs_chunking(body));
    let chunks = split_into_chunks(body);
    assert_eq!(chunks.len(), 1);
    assert_eq!(chunks[0].text, body);
}

#[test]
fn test_long_body_produces_multiple_chunks() {
    let body = "word ".repeat(1000);
    assert!(needs_chunking(&body));
    let chunks = split_into_chunks(&body);
    assert!(chunks.len() > 1);
}

#[test]
fn long_body_spans_end_after_last_space_of_each_window() {
    let body = "word ".repeat(1000);
    let chunks = split_into_chunks(&body);
    let spans: Vec<(usize, usize)> = chunks.iter().map(|c| (c.start_offset, c.end_offset)).collect();
    assert_eq!(spans, vec![(0, 1600), (1400, 3000), (2800, 4400), (4200, 5000)]);
    for c in &chunks {
        assert_eq!(c.text, &body[c.start_offset..c.end_offset]);
        assert_eq!(c.token_count_approx, (c.end_offset - c.start_offset) / 4);
    }
}

#[test]
fn chunks_cover_the_body_within_the_size_limit() {
    let body = "lorem ipsum dolor sit amet. ".repeat(300);
    let chunks = split_into_chunks(&body);
    assert_eq!(chunks[0].start_offset, 0);
    assert_eq!(chunks[chunks.len() - 1].end_offset, body.len());
    for c in &chunks {
        assert!(c.end_offset - c.start_offset <= CHUNK_SIZE_CHARS);
    }
    for w in chunks.windows(2) {
        assert!(w[0].end_offset < body.len());
        assert_eq!(w[1].start_offset, w[0].end_offset - CHUNK_OVERLAP_CHARS);
    }
}

#[test]
fn sentence_end_is_preferred_over_space() {
    let body = format!("{}. {}", "a ".repeat(500), "b".repeat(1000));
    let chunks = split_into_chunks(&body);
    assert_eq!(chunks[0].end_offset, 1002);
    assert!(chunks[0].text.ends_with(". "));
}

#[test]
fn blank_line_is_preferred_over_sentence_end() {
    let paragraph = format!("{}\n\n", "s. ".repeat(166));
    let body = paragraph.repeat(8);
    let chunks = split_into_chunks(&body);
    let spans: Vec<(usize, usize)> = chunks.iter().map(|c| (c.start_offset, c.end_offset)).collect();
    assert_eq!(spans, vec![(0, 1500), (1300, 2500), (2300, 3500), (3300, 4000)]);
    assert!(chunks[0].text.ends_with("\n\n"));
}

#[test]
fn window_without_separator_is_cut_at_its_end() {
    let body = "x".repeat(2000);
    let chunks = split_into_chunks(&body);
    let spans: Vec<(usize, usize)> = chunks.iter().map(|c| (c.start_offset, c.end_offset)).collect();
    assert_eq!(spans, vec![(0, 1600), (1400, 2000)]);
}

#[test]
fn multibyte_body_is_cut_on_character_boundaries() {
    let body = "ção ".repeat(600);
    assert_eq!(body.len(), 3600);
    let chunks = split_into_chunks(&body);
    let spans: Vec<(usize, usize)> = chunks.iter().map(|c| (c.start_offset, c.end_offset)).collect();
    assert_eq!(spans, vec![(0, 1596), (1396, 2994), (2794, 3600)]);
    for c in &chunks {
        assert_eq!(c.text, &body[c.start_offset..c.end_offset]);
    }
}

#[test]
fn body_of_exactly_chunk_size_is_one_chunk() {
    let body = "y".repeat(CHUNK_SIZE_CHARS);
    assert!(!needs_chunking(&body));
    let chunks = split_into_chunks(&body);
    assert_eq!(chunks.len(), 1);
    assert_eq!(chunks[0].end_offset, CHUNK_SIZE_CHARS);
    assert_eq!(chunks[0].token_count_approx, 400);
}

#[test]
fn empty_body_is_one_empty_chunk() {
    let chunks = split_into_chunks("");
    assert_eq!(chunks.len(), 1);
    assert_eq!(chunks[0].text, "");
    assert_eq!(chunks[0].start_offset, 0);
    assert_eq!(chunks[0].end_offset, 0);
    assert_eq!(chunks[0].token_count_approx, 0);
}

#[test]
fn checked_split_agrees_on_ordinary_bodies() {
    for body in ["short text".to_string(), "word ".repeat(1000), "lorem ipsum dolor sit amet. ".repeat(300)] {
        let expected = split_into_chunks(&body);
        let got = try_split_into_chunks(&body).expect("ordinary body splits");
        assert_eq!(got.len(), expected.len());
        for (g, e) in got.iter().zip(expected.iter()) {
            assert_eq!((g.start_offset, g.end_offset), (e.start_offset, e.end_offset));
            assert_eq!(g.text, e.text);
            assert_eq!(g.token_count_approx, e.token_count_approx);
        }
    }
}

#[test]
fn checked_split_refuses_a_walk_that_never_advances() {
    let body = format!("{}\n\n{}", "x".repeat(100), "y".repeat(2000));
    assert!(try_split_into_chunks(&body).is_none());
}

#[test]
fn checked_split_refuses_a_cut_inside_a_character() {
    let body = format!("a{}", "é".repeat(1000));
    assert!(try_split_into_chunks(&body).is_none());
}

#[test]
fn checked_split_accepts_multibyte_text_cut_on_boundaries() {
    let body = "é".repeat(1000);
    let chunks = try_split_into_chunks(&body).expect("cuts fall on character boundaries");
    let spans: Vec<(usize, usize)> = chunks.iter().map(|c| (c.start_offset, c.end_offset)).collect();
    assert_eq!(spans, vec![(0, 1600), (1400, 2000)]);
}
