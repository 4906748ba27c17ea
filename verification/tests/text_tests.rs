use guild_config_cache::text::{into_blocks, truncate};

#[test]
fn truncate_splits_at_the_character_budget() {
    assert_eq!(truncate("hello world", 5), ("hello".to_string(), " world".to_string()));
}

#[test]
fn truncate_keeps_everything_that_fits() {
    assert_eq!(truncate("hi", 5), ("hi".to_string(), "".to_string()));
    assert_eq!(truncate("", 5), ("".to_string(), "".to_string()));
}

#[test]
fn truncate_budget_zero_moves_everything_to_the_rest() {
    assert_eq!(truncate("abc", 0), ("".to_string(), "abc".to_string()));
}

#[test]
fn truncate_counts_characters_but_respects_grapheme_boundaries() {
    // "a" + COMBINING CANDRABINDU forms one two-character cluster, as does
    // "e" + COMBINING ACUTE ACCENT; a budget of three cannot split a cluster,
    // so only the first cluster fits.
    let text = "a\u{310}e\u{301}o";
    let (head, rest) = truncate(text, 3);
    assert_eq!(head, "a\u{310}");
    assert_eq!(rest, "e\u{301}o");
}

#[test]
fn into_blocks_gathers_cumulative_chunks() {
    let blocks = into_blocks("hello world", 5);
    assert_eq!(blocks, vec!["hello".to_string(), " worl".to_string(), "d".to_string()]);
}

#[test]
fn into_blocks_of_empty_text_is_one_empty_block() {
    assert_eq!(into_blocks("", 5), vec!["".to_string()]);
}

#[test]
fn into_blocks_exact_fit_is_one_block() {
    assert_eq!(into_blocks("ab", 2), vec!["ab".to_string()]);
}

#[test]
fn into_blocks_oversized_cluster_stays_whole() {
    // "o" + two combining marks: one three-character cluster; a budget of two
    // cannot hold it, and the cluster is not torn apart.
    let text = "o\u{308}\u{332}";
    assert_eq!(into_blocks(text, 2), vec![text.to_string()]);
}

#[test]
fn into_blocks_concatenation_restores_the_text() {
    let text = "The quick brown fox jumps over the lazy dog. \u{1f98a}\u{1f415}";
    let blocks = into_blocks(text, 7);
    let joined: String = blocks.concat();
    assert_eq!(joined, text);
    for block in &blocks {
        assert!(block.chars().count() <= 7 || blocks.len() == 1);
    }
}
