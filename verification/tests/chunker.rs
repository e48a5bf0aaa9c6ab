use translate_gateway::chunker::{split_by_chars, split_text};

#[test]
fn short_text_is_one_chunk() {
    assert_eq!(split_text("hello world", 800), vec!["hello world".to_string()]);
    assert_eq!(split_text("a\n\nb", 4), vec!["a\n\nb".to_string()]);
    assert_eq!(split_text("", 0), vec![String::new()]);
}

#[test]
fn paragraphs_are_packed_greedily() {
    let text = "aaaa\n\nbbbb\n\ncccc";
    assert_eq!(split_text(text, 10), vec!["aaaa\n\nbbbb".to_string(), "cccc".to_string()]);
    assert_eq!(
        split_text(text, 9),
        vec!["aaaa".to_string(), "bbbb".to_string(), "cccc".to_string()]
    );
}

#[test]
fn packed_chunks_rejoin_to_the_text() {
    let text = "one\n\ntwo\n\nthree\n\nfour\n\nfive";
    for max in 5..text.chars().count() {
        let chunks = split_text(text, max);
        assert_eq!(chunks.join("\n\n"), text);
        assert!(chunks.iter().all(|c| c.chars().count() <= max));
    }
}

#[test]
fn oversized_paragraph_is_cut_into_pieces() {
    let max = 7;
    let text: String = "x".repeat(2 * max + 5);
    let chunks = split_text(&text, max);
    assert_eq!(chunks.len(), 3);
    assert_eq!(chunks, vec!["x".repeat(7), "x".repeat(7), "x".repeat(5)]);
    assert_eq!(chunks.concat(), text);
}

#[test]
fn oversized_paragraph_closes_the_chunk_before_it() {
    let text = "ab\n\ncdefghij\n\nkl";
    assert_eq!(
        split_text(text, 3),
        vec!["ab".to_string(), "cde".to_string(), "fgh".to_string(), "ij".to_string(), "kl".to_string()]
    );
}

#[test]
fn blank_paragraph_with_no_chunk_open_is_dropped() {
    assert_eq!(split_text("\n\nab\n\ncd", 3), vec!["ab".to_string(), "cd".to_string()]);
    assert_eq!(split_text("ab\n\n\n\ncd", 3), vec!["ab".to_string(), "cd".to_string()]);
    assert_eq!(split_text("ab\n\n\n\ncd", 6), vec!["ab\n\n".to_string(), "cd".to_string()]);
    assert_eq!(split_text("\n\n\n\n", 3), Vec::<String>::new());
}

#[test]
fn separators_do_not_overlap() {
    assert_eq!(split_text("a\n\n\nb", 2), vec!["a".to_string(), "\nb".to_string()]);
}

#[test]
fn split_by_chars_counts_characters_not_bytes() {
    assert_eq!(
        split_by_chars("héllo wörld", 4),
        vec!["héll".to_string(), "o wö".to_string(), "rld".to_string()]
    );
    assert_eq!(split_by_chars("", 4), Vec::<String>::new());
    assert_eq!(split_by_chars("abcd", 4), vec!["abcd".to_string()]);
    assert_eq!(split_by_chars("abc", 0), vec!["a".to_string(), "b".to_string(), "c".to_string()]);
}

#[test]
fn oversized_paragraph_gives_as_many_pieces_as_the_ceiling_says() {
    for max in 1usize..40 {
        let len = 2 * max + 5;
        let text: String = "y".repeat(len);
        let chunks = split_text(&text, max);
        assert_eq!(chunks.len(), (len + max - 1) / max);
        assert!(chunks.iter().all(|c| c.chars().count() <= max && !c.is_empty()));
        assert_eq!(chunks.concat(), text);
    }
}

#[test]
fn chunk_is_never_longer_than_the_limit() {
    let text = "alpha beta\n\ngamma\n\n\n\ndelta epsilon zeta eta theta\n\niota\n\n\nkappa";
    for max in 1..text.len() {
        for chunk in split_text(text, max) {
            assert!(chunk.chars().count() <= max, "{:?} with max {}", chunk, max);
        }
    }
}

#[test]
fn zero_limit_cuts_into_single_characters() {
    assert_eq!(split_text("ab", 0), vec!["a".to_string(), "b".to_string()]);
    assert_eq!(split_text("a\n\nb", 0), vec!["a".to_string(), "b".to_string()]);
}
