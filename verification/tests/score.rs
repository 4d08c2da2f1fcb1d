use donkey_bas::score::{loaded_score, parse_score, score_text, ScoreStore};
use std::path::PathBuf;

#[test]
fn high_score_round_trips() {
    let path = PathBuf::from("/tmp/donkey-bas/high-score");
    let store = ScoreStore::at(path.clone());
    assert_eq!(store.path(), &Some(path));

    assert_eq!(loaded_score(None), 0);
    let written = score_text(42);
    assert_eq!(loaded_score(Some(written.as_str())), 42);
}

#[test]
fn a_store_without_a_location_keeps_nothing() {
    let store = ScoreStore::new(None);
    assert_eq!(store.path(), &None);
    let store = ScoreStore::new(Some(PathBuf::from("/tmp/x/high-score")));
    assert_eq!(store.path(), &Some(PathBuf::from("/tmp/x/high-score")));
}

#[test]
fn scores_are_written_in_decimal() {
    assert_eq!(score_text(0), "0");
    assert_eq!(score_text(42), "42");
    assert_eq!(score_text(u32::MAX), u32::MAX.to_string());
}

#[test]
fn reading_tolerates_white_space_and_rejects_the_rest() {
    assert_eq!(parse_score("42"), 42);
    assert_eq!(parse_score(" 42\n"), 42);
    assert_eq!(parse_score("\t+17 \r\n"), 17);
    assert_eq!(parse_score("\u{3000}5\u{2028}"), 5);
    assert_eq!(parse_score("0007"), 7);
    assert_eq!(parse_score("4294967295"), u32::MAX);
    assert_eq!(parse_score("4294967296"), 0);
    assert_eq!(parse_score("99999999999999999999"), 0);
    assert_eq!(parse_score(""), 0);
    assert_eq!(parse_score("   "), 0);
    assert_eq!(parse_score("+"), 0);
    assert_eq!(parse_score("-1"), 0);
    assert_eq!(parse_score("-0"), 0);
    assert_eq!(parse_score("1 2"), 0);
    assert_eq!(parse_score("12a"), 0);
    assert_eq!(parse_score("١٢"), 0);
}

#[test]
fn reading_agrees_with_trim_and_parse() {
    let samples = [
        "0", "1", " 9 ", "+0", "++1", "+-1", "12345678901", "\n\n3\n", "\u{a0}8", "\u{85}4\u{85}",
        "\u{200b}4", "4\u{feff}", "0x10", "1_000", "42.0", " 4 2 ", "\u{2009}77", "+4294967295",
    ];
    for sample in samples {
        let expected = sample.trim().parse::<u32>().unwrap_or(0);
        assert_eq!(parse_score(sample), expected, "{sample:?}");
    }
    for value in [0u32, 1, 9, 10, 65_536, 4_000_000_000, u32::MAX] {
        assert_eq!(parse_score(&score_text(value)), value);
        assert_eq!(parse_score(&format!(" {}\n", score_text(value))), value);
    }
}
