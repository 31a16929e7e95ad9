use anisearch::autocomplete::{ordered_suggestions, prefix_choices, split_partial, trim};
use anisearch::format::convert_to_color;
use anisearch::health::{is_serving, shards_healthy, ConnectionStage};
use anisearch::service::{per_page, DEFAULT_SEARCH_LIMIT};
use anisearch::shards::{format_shard, format_titled_shard};

fn s(text: &str) -> String {
    text.to_string()
}

fn split_like_std(partial: &str) -> (String, String) {
    let parts: Vec<&str> = partial.split(',').map(str::trim).collect();
    match parts.split_last() {
        Some((last, rest)) => (rest.join(", "), last.to_string()),
        None => (String::new(), String::new()),
    }
}

#[test]
fn trim_agrees_with_std() {
    for text in ["", " ", "  a  ", "a", "\t a b \n", "a ", " a", "\u{3000}x\u{a0}", " \u{2003} "] {
        assert_eq!(trim(text), text.trim(), "{text:?}");
    }
}

#[test]
fn partial_text_is_split_at_the_last_comma() {
    assert_eq!(split_partial("Action, Dra"), (s("Action"), s("Dra")));
    assert_eq!(split_partial("Action,Drama , com"), (s("Action, Drama"), s("com")));
    assert_eq!(split_partial("Action"), (s(""), s("Action")));
    assert_eq!(split_partial(""), (s(""), s("")));
    assert_eq!(split_partial("Action,"), (s("Action"), s("")));
    assert_eq!(split_partial(",x"), (s(""), s("x")));
    assert_eq!(split_partial(",,x"), (s(", "), s("x")));
    for text in ["a,b,c", " a , b ,c ", ",", ",,", "a,,b", "  ", "a, b , , c,", "x ,y"] {
        assert_eq!(split_partial(text), split_like_std(text), "{text:?}");
    }
}

#[test]
fn choices_follow_what_is_complete() {
    assert_eq!(
        prefix_choices("Action", vec![s("Drama"), s("Drama CD")]),
        vec![s("Action, Drama"), s("Action, Drama CD")]
    );
    assert_eq!(prefix_choices("", vec![s("Drama")]), vec![s("Drama")]);
    assert!(prefix_choices("Action", vec![]).is_empty());
}

#[test]
fn suggestions_in_order() {
    assert_eq!(
        ordered_suggestions(vec![s("b"), s("a"), s("B"), s("é"), s("aa"), s("a")]),
        vec![s("B"), s("a"), s("a"), s("aa"), s("b"), s("é")]
    );
    let many: Vec<String> = (0..40).rev().map(|i| format!("{i:02}")).collect();
    let got = ordered_suggestions(many);
    assert_eq!(got.len(), 25);
    assert_eq!(got[0], "00");
    assert_eq!(got[24], "24");
}

#[test]
fn colours() {
    assert_eq!(convert_to_color("#ffffff"), Some(0xffffff));
    assert_eq!(convert_to_color("#E4A15D"), Some(0xE4A15D));
    assert_eq!(convert_to_color("#0"), Some(0));
    assert_eq!(convert_to_color("#+1f"), Some(0x1f));
    assert_eq!(convert_to_color("#ffffffff"), Some(u32::MAX));
    assert_eq!(convert_to_color("#100000000"), None);
    assert_eq!(convert_to_color("ffffff"), None);
    assert_eq!(convert_to_color("#"), None);
    assert_eq!(convert_to_color("#+"), None);
    assert_eq!(convert_to_color(""), None);
    assert_eq!(convert_to_color("#12g"), None);
    assert_eq!(convert_to_color("#-1"), None);
    assert_eq!(convert_to_color("##1"), None);
    assert_eq!(convert_to_color("# 1"), None);
    for text in ["#abc", "#ABCDEF", "#00000001", "#+0", "#fffffffff", "#x"] {
        let expected = text.strip_prefix('#').and_then(|t| u32::from_str_radix(t, 16).ok());
        assert_eq!(convert_to_color(text), expected, "{text:?}");
    }
}

#[test]
fn shard_lines() {
    assert_eq!(format_titled_shard(0, Some(42), "Connected"), "[SHARD #0]  42ms Connected");
    assert_eq!(format_titled_shard(3, None, "Handshake"), "[SHARD #3]   N/A Handshake");
    assert_eq!(format_titled_shard(12, Some(123456), "X"), "[SHARD #12] 123456ms X");
    assert_eq!(format_titled_shard(1, Some(0), ""), "[SHARD #1]   0ms ");
    assert_eq!(format_shard(1, Some(100), "connecting"), "[SHARD #1] 100ms Connecting");
    assert_eq!(format_shard(2, None, "fooBar"), "[SHARD #2]   N/A Foo Bar");
}

#[test]
fn serving_needs_shards_and_database() {
    let up = vec![ConnectionStage::Connected, ConnectionStage::Resuming, ConnectionStage::Handshake];
    let down = vec![ConnectionStage::Connected, ConnectionStage::Disconnected];
    assert!(shards_healthy(&up));
    assert!(!shards_healthy(&down));
    assert!(shards_healthy(&vec![]));
    assert!(is_serving(&up, true));
    assert!(!is_serving(&up, false));
    assert!(!is_serving(&down, true));
    assert!(is_serving(&vec![], true));
}

#[test]
fn page_size_of_a_search() {
    assert_eq!(per_page(None), 10);
    assert_eq!(per_page(None), DEFAULT_SEARCH_LIMIT);
    assert_eq!(per_page(Some(3)), 3);
}
