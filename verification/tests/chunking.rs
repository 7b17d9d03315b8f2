use phy6_token_saver::rank::top_places;
use phy6_token_saver::chunking::{chunk_text, CHUNK_OVERLAP, CHUNK_WORDS};
use phy6_token_saver::store::Store;
use phy6_token_saver::text::count_words;

#[test]
fn test_chunk_text() {
    let store = Store::new();
    let long = (0..500).map(|i| format!("word{}", i)).collect::<Vec<_>>().join(" ");
    let chunks = store.chunk_text(&long);
    assert!(chunks.len() >= 2, "long text should split into multiple chunks");
    assert!(chunks.iter().all(|c| !c.is_empty()));
    let short = store.chunk_text("a few words");
    assert_eq!(short.len(), 1);
}

#[test]
fn chunk_windows_overlap_by_forty_words() {
    let long = (0..500).map(|i| format!("w{}", i)).collect::<Vec<_>>().join(" ");
    let chunks = chunk_text(&long);
    // 500 words: windows start at 0, 140, 280 and 420; the last reaches the end.
    assert_eq!(chunks.len(), 4);
    let first: Vec<&str> = chunks[0].split(' ').collect();
    let second: Vec<&str> = chunks[1].split(' ').collect();
    let last: Vec<&str> = chunks[3].split(' ').collect();
    assert_eq!(first.len(), CHUNK_WORDS);
    assert_eq!(second.len(), CHUNK_WORDS);
    assert_eq!(last.len(), 500 - 420);
    assert_eq!(first[0], "w0");
    assert_eq!(second[0], "w140");
    assert_eq!(last[0], "w420");
    assert_eq!(&first[CHUNK_WORDS - CHUNK_OVERLAP..], &second[..CHUNK_OVERLAP]);
    assert_eq!(last.last(), Some(&"w499"));
}

#[test]
fn chunk_count_at_the_boundaries() {
    let text = |n: usize| (0..n).map(|i| format!("x{}", i)).collect::<Vec<_>>().join(" ");
    assert_eq!(chunk_text(&text(180)).len(), 1);
    assert_eq!(chunk_text(&text(181)).len(), 2);
    assert_eq!(chunk_text(&text(320)).len(), 2);
    assert_eq!(chunk_text(&text(321)).len(), 3);
}

#[test]
fn chunks_collapse_white_space() {
    let chunks = chunk_text("  alpha\t\tbeta\n gamma\u{3000}delta  ");
    assert_eq!(chunks, vec!["alpha beta gamma delta".to_string()]);
}

#[test]
fn blank_text_has_no_chunks() {
    assert!(chunk_text("").is_empty());
    assert!(chunk_text(" \t \n ").is_empty());
}

#[test]
fn words_are_counted_by_white_space() {
    assert_eq!(count_words("error correction"), 2);
    assert_eq!(count_words("  a  b\u{a0}c "), 3);
    assert_eq!(count_words(""), 0);
}

#[test]
fn ranking_is_a_stable_sort_highest_first() {
    let keys = vec![3i64, 9, 3, -1, 9, 5];
    assert_eq!(top_places(&keys, 4), vec![1, 4, 5, 0]);
    assert_eq!(top_places(&keys, 100), vec![1, 4, 5, 0, 2, 3]);
    assert_eq!(top_places(&keys, 0), Vec::<usize>::new());
    assert_eq!(top_places(&vec![], 3), Vec::<usize>::new());
}
