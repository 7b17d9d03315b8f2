use phy6_token_saver::lexicon::word_stats;
use phy6_token_saver::numbers::{decimal_string, parse_u64};
use phy6_token_saver::text::chars_of;

#[test]
fn word_stats_count_after_lower_casing() {
    let st = word_stats("THE Quick Methodology AND the criticism of TECHNOLOGY");
    assert_eq!(st.words, 8);
    assert_eq!(st.stop_words, 4);
    assert_eq!(st.long_words, 3);
    assert_eq!(st.suffixed_words, 3);
    assert_eq!(st.distinct_words, 7);
}

#[test]
fn long_words_are_measured_in_bytes() {
    // "éééé" is four characters but eight bytes.
    let st = word_stats("éééé abcde abcdef");
    assert_eq!(st.long_words, 2);
}

#[test]
fn empty_text_has_no_words() {
    let st = word_stats("   ");
    assert_eq!(st.words, 0);
    assert_eq!(st.distinct_words, 0);
}

#[test]
fn decimal_numerals_round_trip() {
    for n in [0u64, 7, 10, 1234567890, u64::MAX] {
        let s = decimal_string(n);
        assert_eq!(s, n.to_string());
        assert_eq!(parse_u64(&chars_of(&s)), Some(n));
    }
}

#[test]
fn parsing_follows_std() {
    for s in ["", "+", "+12", "-1", "12a", "007", "18446744073709551615", "18446744073709551616", " 1"] {
        assert_eq!(parse_u64(&chars_of(s)), s.parse::<u64>().ok(), "{}", s);
    }
}
