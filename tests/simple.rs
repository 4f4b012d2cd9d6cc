use budoux_rs::block::classify;
use budoux_rs::features::{extract, feature_at, key_of, Parity, Window};
use budoux_rs::model::lookup;
use budoux_rs::{BudouxParser, BudouxSegmenter, BudouxSegmenterIterator};
use serde_json::Value;

fn weights_of(entries: &[(&str, Value)]) -> serde_json::Map<String, Value> {
    let mut m = serde_json::Map::new();
    for (k, v) in entries {
        m.insert(k.to_string(), v.clone());
    }
    m
}

fn drain(iter: &mut BudouxSegmenterIterator) -> Vec<usize> {
    let mut out = Vec::new();
    while let Some(o) = iter.next() {
        out.push(o);
    }
    out
}

// A small Japanese model: a phrase begins before
// 天 and between は and い.
fn japanese() -> serde_json::Map<String, Value> {
    weights_of(&[("UW4:天", Value::from(2000)), ("BW2:はい", Value::from(2000))])
}

#[test]
fn jp_test() {
    let model = japanese();
    let segmenter = BudouxSegmenter::try_new_with_model(&model).unwrap();
    let mut iter = segmenter.segment_str("今日は天気です。");
    assert_eq!(iter.next(), Some(9));
    assert_eq!(iter.next(), None);

    iter = segmenter.segment_str("今日はいい天気ですね。");
    assert_eq!(iter.next(), Some(9));
    assert_eq!(iter.next(), Some(15));
    assert_eq!(iter.next(), None);
}

#[test]
fn segment_all_japanese_sentence() {
    let model = japanese();
    let segmenter = BudouxSegmenter::try_new_with_model(&model).unwrap();
    assert_eq!(segmenter.segment_all("今日は天気です。"), vec![9]);
    assert_eq!(segmenter.segment_all("今日はいい天気ですね。"), vec![9, 15]);
}

#[test]
fn segment_all_chinese_sentence() {
    let model = weights_of(&[("UW4:晴", Value::from(3000))]);
    let segmenter = BudouxSegmenter::try_new_with_model(&model).unwrap();
    assert_eq!(segmenter.segment_all("今天天气晴朗。"), vec![12]);
}

#[test]
fn empty_input_gives_no_offsets() {
    let model = japanese();
    let segmenter = BudouxSegmenter::try_new_with_model(&model).unwrap();
    assert_eq!(segmenter.segment_all(""), Vec::<usize>::new());
    let mut iter = segmenter.segment_str("");
    assert_eq!(iter.next(), None);
    assert_eq!(iter.next(), None);
}

#[test]
fn no_boundary_before_first_character() {
    let model = weights_of(&[("UW4:今", Value::from(5000)), ("UW4:日", Value::from(5000))]);
    let segmenter = BudouxSegmenter::try_new_with_model(&model).unwrap();
    assert_eq!(segmenter.segment_all("今日"), vec![3]);
    assert_eq!(segmenter.segment_all("今"), Vec::<usize>::new());
}

#[test]
fn score_equal_to_threshold_opens_nothing() {
    let model = weights_of(&[("UW4:b", Value::from(1000))]);
    let segmenter = BudouxSegmenter::try_new_with_model(&model).unwrap();
    assert_eq!(segmenter.segment_all("ab"), Vec::<usize>::new());
    let model = weights_of(&[("UW4:b", Value::from(1001))]);
    let segmenter = BudouxSegmenter::try_new_with_model(&model).unwrap();
    assert_eq!(segmenter.segment_all("ab"), vec![1]);
}

#[test]
fn custom_threshold() {
    let model = weights_of(&[("UW4:b", Value::from(5)), ("UW4:c", Value::from(-5))]);
    let segmenter = BudouxSegmenter::new(&model, 0);
    assert_eq!(segmenter.segment_all("abcb"), vec![1, 3]);
    let segmenter = BudouxSegmenter::new(&model, 5);
    assert_eq!(segmenter.segment_all("abcb"), Vec::<usize>::new());
}

#[test]
fn block_index_features() {
    // は, で and す are hiragana, whose block has rank 108.
    let model = weights_of(&[("UB4:108", Value::from(2000))]);
    let segmenter = BudouxSegmenter::try_new_with_model(&model).unwrap();
    assert_eq!(segmenter.segment_all("今日は天気です。"), vec![6, 15, 18]);
    // 今 and 日 share the block of rank 120.
    let model = weights_of(&[("BB2:120120", Value::from(2000))]);
    let segmenter = BudouxSegmenter::try_new_with_model(&model).unwrap();
    assert_eq!(segmenter.segment_all("今日は"), vec![3]);
}

#[test]
fn ascii_block_index() {
    // 'a' lies in the first block, rank 1.
    let model = weights_of(&[("UB3:001", Value::from(2000))]);
    let segmenter = BudouxSegmenter::try_new_with_model(&model).unwrap();
    assert_eq!(segmenter.segment_all("aaa"), vec![1, 2]);
}

#[test]
fn earlier_decisions_feed_later_positions() {
    let model = weights_of(&[("UW4:日", Value::from(1)), ("UP3:B", Value::from(2000))]);
    let segmenter = BudouxSegmenter::try_new_with_model(&model).unwrap();
    assert_eq!(segmenter.segment_all("今日は天気です。"), vec![6, 9, 12, 15, 18, 21]);
}

#[test]
fn unknown_decisions_before_the_text() {
    let model = weights_of(&[("UP1:U", Value::from(2000))]);
    let segmenter = BudouxSegmenter::try_new_with_model(&model).unwrap();
    assert_eq!(segmenter.segment_all("abcdef"), vec![1, 2]);
    let model = weights_of(&[("BP1:UU", Value::from(2000))]);
    let segmenter = BudouxSegmenter::try_new_with_model(&model).unwrap();
    assert_eq!(segmenter.segment_all("abcdef"), vec![1]);
}

#[test]
fn negative_decisions_are_letter_o() {
    let model = weights_of(&[("UP3:O", Value::from(2000))]);
    let segmenter = BudouxSegmenter::try_new_with_model(&model).unwrap();
    // Position 1 follows a zero score; position 2 follows the positive score of position 1.
    assert_eq!(segmenter.segment_all("abc"), vec![1]);
}

#[test]
fn features_outside_the_text_are_suppressed() {
    let model = weights_of(&[("TW1:ab", Value::from(5000)), ("UW1:a", Value::from(5000))]);
    let segmenter = BudouxSegmenter::try_new_with_model(&model).unwrap();
    assert_eq!(segmenter.segment_all("abcd"), vec![3]);
}

#[test]
fn replacement_character_is_an_ordinary_character() {
    let model = weights_of(&[("UW5:\u{FFFD}", Value::from(5000))]);
    let segmenter = BudouxSegmenter::try_new_with_model(&model).unwrap();
    assert_eq!(segmenter.segment_all("ab\u{FFFD}"), vec![1]);
    assert_eq!(segmenter.segment_all("ab"), Vec::<usize>::new());
}

#[test]
fn trigram_and_quad_features() {
    let model = weights_of(&[("TW2:今日は", Value::from(2000))]);
    let segmenter = BudouxSegmenter::try_new_with_model(&model).unwrap();
    assert_eq!(segmenter.segment_all("今日は天気"), vec![6]);
    let model = weights_of(&[("TQ2:O120108120", Value::from(2000))]);
    let segmenter = BudouxSegmenter::try_new_with_model(&model).unwrap();
    assert_eq!(segmenter.segment_all("今日は天気"), vec![9]);
}

#[test]
fn weights_that_are_not_integers_count_as_zero() {
    let model = weights_of(&[
        ("UW4:b", Value::from("5000")),
        ("UW4:c", Value::from(2.5)),
        ("UW4:d", Value::from(1500)),
    ]);
    let segmenter = BudouxSegmenter::try_new_with_model(&model).unwrap();
    assert_eq!(segmenter.segment_all("abcd"), vec![3]);
}

#[test]
fn extreme_weights_do_not_overflow() {
    let model = weights_of(&[("UW4:b", Value::from(i64::MAX)), ("UW3:a", Value::from(i64::MAX))]);
    let segmenter = BudouxSegmenter::try_new_with_model(&model).unwrap();
    assert_eq!(segmenter.segment_all("ab"), vec![1]);
    let model = weights_of(&[("UW4:b", Value::from(i64::MIN)), ("UW3:a", Value::from(i64::MIN))]);
    let segmenter = BudouxSegmenter::new(&model, i64::MIN);
    assert_eq!(segmenter.segment_all("ab"), Vec::<usize>::new());
}

#[test]
fn offsets_count_utf8_bytes() {
    let model = weights_of(&[("UW4:b", Value::from(2000)), ("UW4:😀", Value::from(2000))]);
    let segmenter = BudouxSegmenter::try_new_with_model(&model).unwrap();
    assert_eq!(segmenter.segment_all("é😀b"), vec![2, 6]);
}

#[test]
fn lazy_and_eager_agree() {
    let model = japanese();
    let segmenter = BudouxSegmenter::try_new_with_model(&model).unwrap();
    for text in ["", "今日は天気です。", "今日はいい天気ですね。", "天天天"] {
        let mut iter = segmenter.segment_str(text);
        assert_eq!(drain(&mut iter), segmenter.segment_all(text));
        assert_eq!(iter.next(), None);
    }
}

#[test]
fn repeated_runs_are_identical() {
    let model = japanese();
    let segmenter = BudouxSegmenter::try_new_with_model(&model).unwrap();
    let text = "今日はいい天気ですね。";
    assert_eq!(segmenter.segment_all(text), segmenter.segment_all(text));
}

#[test]
fn offsets_increase_within_the_text() {
    let model = weights_of(&[("UW4:天", Value::from(2000)), ("UW4:い", Value::from(2000))]);
    let segmenter = BudouxSegmenter::try_new_with_model(&model).unwrap();
    let text = "今日はいい天気ですね。";
    let offsets = segmenter.segment_all(text);
    assert_eq!(offsets, vec![9, 12, 15]);
    for pair in offsets.windows(2) {
        assert!(pair[0] < pair[1]);
    }
    assert!(offsets.iter().all(|&o| 0 < o && o < text.len()));
}

#[test]
fn slicing_at_offsets_rebuilds_the_text() {
    let model = japanese();
    let segmenter = BudouxSegmenter::try_new_with_model(&model).unwrap();
    let text = "今日はいい天気ですね。";
    let offsets = segmenter.segment_all(text);
    let mut pieces = Vec::new();
    let mut start = 0;
    for &o in &offsets {
        pieces.push(&text[start..o]);
        start = o;
    }
    pieces.push(&text[start..]);
    assert_eq!(pieces, vec!["今日は", "いい", "天気ですね。"]);
    assert_eq!(pieces.concat(), text);
}

#[test]
fn iterator_try_new_uses_default_threshold() {
    let model = japanese();
    let mut iter = BudouxSegmenterIterator::try_new(&model, "今日は天気です。").unwrap();
    assert_eq!(iter.next(), Some(9));
    assert_eq!(iter.next(), None);
}

#[test]
fn parser_parse_one_gives_first_boundary() {
    let model = japanese();
    let parser = BudouxParser::try_new_with_model(&model).unwrap();
    assert_eq!(parser.parse_one("今日はいい天気ですね。"), Some(9));
    assert_eq!(parser.parse_one("今日"), None);
    assert_eq!(parser.parse_one(""), None);
    let parser = BudouxParser::new(&model, 3000);
    assert_eq!(parser.parse_one("今日はいい天気ですね。"), None);
}

#[test]
fn block_ranks() {
    assert_eq!(classify('\0'), 1);
    assert_eq!(classify('a'), 1);
    assert_eq!(classify('é'), 2);
    assert_eq!(classify('は'), 108);
    assert_eq!(classify('ア'), 109);
    assert_eq!(classify('今'), 120);
    assert_eq!(classify('\u{10FFFF}'), 307);
}

fn edge_window() -> Window {
    Window {
        parities: [Parity::Unknown, Parity::Unknown, Parity::Unknown],
        chars: [None, None, None, Some('a'), Some('b'), None],
    }
}

#[test]
fn extract_at_the_start_of_a_short_text() {
    let keys = extract(&edge_window());
    assert_eq!(
        keys,
        vec![
            "UP1:U", "UP2:U", "UP3:U", "BP1:UU", "BP2:UU", "UW4:a", "UW5:b", "BW3:ab", "UB4:001",
            "UB5:001", "BB3:001001",
        ]
    );
}

#[test]
fn keys_of_single_features() {
    let w = Window {
        parities: [Parity::Boundary, Parity::NoBoundary, Parity::Unknown],
        chars: [Some('今'), Some('日'), Some('は'), Some('天'), Some('気'), Some('で')],
    };
    assert_eq!(key_of(&w, &feature_at(3)), Some("BP1:BO".to_string()));
    assert_eq!(key_of(&w, &feature_at(17)), Some("TW4:天気で".to_string()));
    assert_eq!(key_of(&w, &feature_at(30)), Some("TB4:120120108".to_string()));
    assert_eq!(key_of(&w, &feature_at(41)), Some("TQ4:U120108120".to_string()));
    assert_eq!(key_of(&edge_window(), &feature_at(5)), None);
}

#[test]
fn lookup_reads_integer_weights() {
    let model = weights_of(&[("k", Value::from(5)), ("s", Value::from("x"))]);
    assert_eq!(lookup(&model, &"k".to_string()), 5);
    assert_eq!(lookup(&model, &"s".to_string()), 0);
    assert_eq!(lookup(&model, &"z".to_string()), 0);
}

#[test]
fn score_sums_weights() {
    let model = weights_of(&[("k", Value::from(5)), ("m", Value::from(-2))]);
    let parser = BudouxParser::try_new_with_model(&model).unwrap();
    let keys = vec!["k".to_string(), "k".to_string(), "m".to_string(), "z".to_string()];
    assert_eq!(parser.score(&keys), 8);
    assert_eq!(parser.score(&Vec::new()), 0);
}
