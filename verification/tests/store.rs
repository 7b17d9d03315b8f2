use phy6_token_saver::mcp::{format_results, Hit};
use phy6_token_saver::store::{SearchPlan, Store, StoreConfig};

#[test]
fn test_state_roundtrip() {
    let mut store = Store::new();
    store.ingest_at("doc-1".to_string(), "Alpha beta gamma delta content here".to_string(), 1000);
    let text = store.state_text();

    let mut loaded = Store::new();
    assert!(loaded.restore_text_at(&text, 1000));
    assert_eq!(loaded.documents().len(), 1);
    assert!(loaded.document(&"doc-1".to_string()).is_some());
    assert_eq!(loaded.current_doc().as_deref(), Some("doc-1"));
    match loaded.search_plan(2) {
        SearchPlan::Current(id) => {
            let d = loaded.document(&id).unwrap();
            let hits: Vec<Hit> = d
                .chunks
                .iter()
                .take(2)
                .map(|c| Hit { page: c.page, score: "0.000".to_string(), text: c.text.clone() })
                .collect();
            assert!(!hits.is_empty());
            assert!(format_results(&hits).contains("alpha") || format_results(&hits).contains("Alpha"));
        }
        SearchPlan::Every(_) => panic!("a document should be current"),
    }
}

#[test]
fn state_text_is_json_that_reads_back() {
    let mut store = Store::with_config(StoreConfig { physics_enabled: true, max_chars: 0, ttl_secs: 60 });
    store.ingest_at("b".to_string(), "two\nlines".to_string(), 100);
    store.ingest_at("a".to_string(), "one".to_string(), 101);
    let text = store.state_text();
    assert!(text.contains("\"docs\""));
    assert!(text.contains("\"160\": \"b\""));
    assert!(text.contains("\"161\": \"a\""));
    assert!(text.contains("\"current\": \"a\""));
    let mut loaded = Store::new();
    assert!(loaded.restore_text_at(&text, 150));
    assert_eq!(loaded.documents().len(), 2);
    assert_eq!(loaded.document(&"b".to_string()).unwrap().pages, vec!["two", "lines"]);
    assert_eq!(loaded.current_doc().as_deref(), Some("a"));
    let mut later = Store::new();
    assert!(later.restore_text_at(&text, 161));
    assert_eq!(later.documents().len(), 1);
    assert!(later.document(&"a".to_string()).is_some());
    let mut late = Store::new();
    assert!(late.restore_text_at(&text, 162));
    assert!(late.documents().is_empty());
}

#[test]
fn an_empty_store_writes_no_current_document() {
    let text = Store::new().state_text();
    assert!(text.contains("\"docs\": {}"));
    assert!(text.contains("\"ttl\": {}"));
    assert!(!text.contains("current"));
}

#[test]
fn a_state_file_written_by_hand_restores() {
    let raw = "{\"current\": \"x\", \"docs\": {\"x\": \"alpha beta\", \"y\": 7}, \"ttl\": {\"500\": \"x\", \"600\": \"y\", \"abc\": \"x\"}}";
    let mut store = Store::new();
    assert!(store.restore_text_at(raw, 400));
    assert_eq!(store.documents().len(), 1);
    assert_eq!(store.document(&"x".to_string()).unwrap().chunks[0].text, "alpha beta");
    assert_eq!(store.current_doc().as_deref(), Some("x"));
}

#[test]
fn state_text_that_is_not_json_changes_nothing() {
    let mut store = Store::new();
    store.ingest_at("a".to_string(), "one".to_string(), 5);
    assert!(!store.restore_text_at("{ not json", 5));
    assert_eq!(store.documents().len(), 1);
    assert_eq!(store.current_doc().as_deref(), Some("a"));
    assert!(store.restore_text_at("[1, 2]", 5));
    assert_eq!(store.documents().len(), 1);
}

#[test]
fn ingest_counts_chunks_and_makes_current() {
    let mut store = Store::new();
    let count = store.ingest("a".to_string(), "First line here\nsecond line\n\n  \nthird".to_string());
    assert_eq!(count, 3);
    let d = store.document(&"a".to_string()).unwrap();
    let pages: Vec<usize> = d.chunks.iter().map(|c| c.page).collect();
    assert_eq!(pages, vec![1, 2, 5]);
    assert_eq!(d.pages, vec!["First line here", "second line", "", "  ", "third"]);
    assert_eq!(store.current_doc().as_deref(), Some("a"));
}

#[test]
fn outline_takes_capitalised_lines_longer_than_ten_bytes() {
    let mut store = Store::new();
    let text = "Introduction to things\nshort\nTiny\nlowercase heading line\n  Second Heading Here  \nÉtude détaillée";
    store.ingest("o".to_string(), text.to_string());
    let d = store.document(&"o".to_string()).unwrap();
    assert_eq!(d.outline, vec!["Introduction to things", "Second Heading Here", "Étude détaillée"]);
}

#[test]
fn outline_keeps_at_most_five_headings() {
    let mut store = Store::new();
    let text = (0..8).map(|i| format!("Heading number {}", i)).collect::<Vec<_>>().join("\n");
    store.ingest("h".to_string(), text);
    assert_eq!(store.document(&"h".to_string()).unwrap().outline.len(), 5);
}

#[test]
fn text_without_words_is_one_chunk() {
    let mut store = Store::new();
    let count = store.ingest("blank".to_string(), "\u{feff} \n\t\n".to_string());
    assert_eq!(count, 1);
    let d = store.document(&"blank".to_string()).unwrap();
    assert_eq!(d.chunks[0].page, 1);
    assert_eq!(d.chunks[0].text, " \n\t\n");
}

#[test]
fn byte_order_mark_is_dropped() {
    let mut store = Store::new();
    store.ingest("b".to_string(), "\u{feff}Hello there".to_string());
    let d = store.document(&"b".to_string()).unwrap();
    assert_eq!(d.pages, vec!["Hello there"]);
    assert_eq!(d.chunks[0].text, "Hello there");
}

#[test]
fn chunk_text_is_cut_to_the_limit_but_stats_count_it_all() {
    let mut store = Store::with_config(StoreConfig { physics_enabled: true, max_chars: 5, ttl_secs: 60 });
    store.ingest("c".to_string(), "Technology development documentation".to_string());
    let d = store.document(&"c".to_string()).unwrap();
    assert_eq!(d.chunks[0].text, "Techn");
    assert_eq!(d.chunks[0].stats.words, 3);
    assert_eq!(d.chunks[0].stats.suffixed_words, 3);
}

#[test]
fn reingesting_replaces_the_document() {
    let mut store = Store::new();
    store.ingest("x".to_string(), "one two".to_string());
    store.ingest("y".to_string(), "three".to_string());
    store.ingest("x".to_string(), "four five six".to_string());
    assert_eq!(store.documents().len(), 2);
    assert_eq!(store.document(&"x".to_string()).unwrap().chunks[0].text, "four five six");
    assert_eq!(store.current_doc().as_deref(), Some("x"));
    let st = store.status();
    assert_eq!(st.documents, "x, y");
    assert_eq!(st.listing, vec![("x".to_string(), 1), ("y".to_string(), 1)]);
    assert_eq!(st.total_chunks, 2);
    assert!(!st.physics_enabled);
}

#[test]
fn clear_empties_the_store() {
    let mut store = Store::with_config(StoreConfig::standard());
    store.ingest("x".to_string(), "one two".to_string());
    store.clear();
    assert!(store.documents().is_empty());
    assert!(store.current_doc().is_none());
    let st = store.status();
    assert_eq!(st.documents, "");
    assert_eq!(st.total_chunks, 0);
    assert!(st.physics_enabled);
    match store.search_plan(7) {
        SearchPlan::Every(k) => assert_eq!(k, 7),
        SearchPlan::Current(_) => panic!("nothing is current after clear"),
    }
}

#[test]
fn expired_documents_are_not_restored() {
    let mut store = Store::with_config(StoreConfig { physics_enabled: true, max_chars: 0, ttl_secs: 100 });
    store.ingest_at("old".to_string(), "old text".to_string(), 1000);
    store.ingest_at("new".to_string(), "new text".to_string(), 5000);
    let saved = store.snapshot().to_saved();
    assert_eq!(saved.expiries[0], ("1100".to_string(), Some("old".to_string())));
    assert_eq!(saved.expiries[1], ("5100".to_string(), Some("new".to_string())));

    let mut loaded = Store::new();
    loaded.restore_at(&saved, 2000);
    assert!(loaded.document(&"old".to_string()).is_none());
    assert!(loaded.document(&"new".to_string()).is_some());
    assert_eq!(loaded.current_doc().as_deref(), Some("new"));
}

#[test]
fn restore_keeps_the_saved_current_document_when_none_comes_back() {
    let mut store = Store::new();
    store.ingest_at("kept".to_string(), "kept text".to_string(), 10);
    let mut saved = store.snapshot().to_saved();
    saved.expiries.clear();
    store.restore_at(&saved, 10);
    assert_eq!(store.current_doc().as_deref(), Some("kept"));
    saved.current = Some("missing".to_string());
    store.restore_at(&saved, 10);
    assert_eq!(store.current_doc().as_deref(), Some("kept"));
}

#[test]
fn documents_sharing_an_expiry_time_keep_one_entry() {
    let mut store = Store::new();
    store.ingest_at("a".to_string(), "aa".to_string(), 7);
    store.ingest_at("b".to_string(), "bb".to_string(), 7);
    let sn = store.snapshot();
    assert_eq!(sn.docs.len(), 2);
    assert_eq!(sn.expiries, vec![(7, "b".to_string())]);
}

#[test]
fn reingesting_records_a_new_expiry_time() {
    let mut store = Store::with_config(StoreConfig { physics_enabled: false, max_chars: 0, ttl_secs: 10 });
    store.ingest_at("a".to_string(), "aa".to_string(), 1);
    store.ingest_at("a".to_string(), "aa".to_string(), 50);
    assert_eq!(store.snapshot().expiries, vec![(11, "a".to_string()), (60, "a".to_string())]);
}

#[test]
fn restore_makes_the_last_document_brought_back_current() {
    let mut store = Store::new();
    store.ingest_at("z".to_string(), "zz".to_string(), 8);
    store.ingest_at("a".to_string(), "aa".to_string(), 9);
    store.ingest_at("z".to_string(), "zz again".to_string(), 10);
    let mut saved = store.snapshot().to_saved();
    saved.expiries.reverse();
    let mut loaded = Store::new();
    loaded.restore_at(&saved, 8);
    assert_eq!(loaded.current_doc().as_deref(), Some("z"));
    assert_eq!(loaded.document(&"z".to_string()).unwrap().chunks[0].text, "zz again");
}

#[test]
fn snapshot_joins_lines_with_line_feeds() {
    let mut store = Store::new();
    store.ingest_at("d".to_string(), "one\r\ntwo\nthree\n".to_string(), 0);
    let sn = store.snapshot();
    assert_eq!(sn.docs, vec![("d".to_string(), "one\ntwo\nthree".to_string())]);
    assert_eq!(sn.current.as_deref(), Some("d"));
}

#[test]
fn search_on_an_empty_store_goes_to_every_document() {
    let store = Store::new();
    match store.search_plan(5) {
        SearchPlan::Every(k) => assert_eq!(k, 5),
        SearchPlan::Current(_) => panic!("nothing current"),
    }
}

#[test]
fn restoring_nothing_into_an_empty_store_leaves_it_empty() {
    let mut store = Store::new();
    store.ingest_at("a".to_string(), "aa".to_string(), 0);
    let mut saved = store.snapshot().to_saved();
    saved.expiries.clear();
    let mut other = Store::new();
    other.restore_at(&saved, 0);
    assert!(other.documents().is_empty());
    assert!(other.current_doc().is_none());
}

#[test]
fn chunk_count_follows_the_closed_form_line_by_line() {
    let long: Vec<String> = (0..321).map(|i| format!("w{}", i)).collect();
    let mid: Vec<String> = (0..181).map(|i| format!("m{}", i)).collect();
    let text = format!("{}\n\n{}\nfive words on this line", long.join(" "), mid.join(" "));
    let mut store = Store::new();
    let count = store.ingest_at("c".to_string(), text, 0);
    assert_eq!(count, 3 + 2 + 1);
    let d = store.document(&"c".to_string()).unwrap();
    let pages: Vec<usize> = d.chunks.iter().map(|c| c.page).collect();
    assert_eq!(pages, vec![1, 1, 1, 3, 3, 4]);
    assert!(d.chunks[1].text.starts_with("w140 "));
    assert_eq!(d.chunks[5].text, "five words on this line");
}

#[test]
fn reingesting_changes_the_total_by_the_difference() {
    let mut store = Store::new();
    store.ingest_at("a".to_string(), "one\ntwo\nthree".to_string(), 0);
    store.ingest_at("b".to_string(), "four".to_string(), 0);
    assert_eq!(store.status().total_chunks, 4);
    store.ingest_at("a".to_string(), "just one".to_string(), 0);
    assert_eq!(store.status().total_chunks, 2);
    assert_eq!(store.status().listing, vec![("a".to_string(), 1), ("b".to_string(), 1)]);
}
