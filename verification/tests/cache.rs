use zhtw_mcp::cache::{normalize_cache_context, CachedDisambiguation, DisambiguationCache};

#[test]
fn white_space_is_dropped_and_punctuation_kept() {
    assert_eq!(normalize_cache_context(" 不，好\u{3000}\n"), "不，好");
    assert_eq!(normalize_cache_context("不好"), "不好");
    assert_eq!(normalize_cache_context(" \t"), "");
}

#[test]
fn a_long_context_keeps_its_middle() {
    let digits = |n: usize| (0..n).map(|i| char::from(b'a' + (i % 26) as u8)).collect::<String>();
    let eighty = digits(80);
    assert_eq!(normalize_cache_context(&eighty), eighty);
    let odd = digits(81);
    assert_eq!(normalize_cache_context(&odd), odd[..80]);
    let long = digits(201);
    assert_eq!(normalize_cache_context(&long), long[60..140]);
}

#[test]
fn a_key_counts_bytes_before_each_text() {
    assert_eq!(
        DisambiguationCache::make_key("軟件", Some("software"), "一 些"),
        "6:軟件\n8:software\n一些"
    );
    assert_eq!(DisambiguationCache::make_key("", None, ""), "0:\n0:\n");
}

#[test]
fn embedded_separators_do_not_collide() {
    let keys = [
        DisambiguationCache::make_key("a", Some("b"), "c"),
        DisambiguationCache::make_key("a\n1:b", Some(""), "c"),
        DisambiguationCache::make_key("a", Some("b\nc"), ""),
        DisambiguationCache::make_key("", Some("a\n1:b"), "c"),
        DisambiguationCache::make_key("a", None, "1:b"),
    ];
    for (i, a) in keys.iter().enumerate() {
        for (j, b) in keys.iter().enumerate() {
            assert_eq!(a == b, i == j, "{a:?} {b:?}");
        }
    }
    assert_eq!(
        DisambiguationCache::make_key("a", None, "c"),
        DisambiguationCache::make_key("a", Some(""), "c")
    );
}

#[test]
fn what_was_kept_is_found_again() {
    let term = |t: Option<&str>| CachedDisambiguation { matched_term: t.map(|s| s.to_owned()) };
    let mut cache = DisambiguationCache::new();
    assert!(cache.get("a", Some("e"), "x y").is_none());
    cache.insert("a", Some("e"), "x y", term(Some("b")));
    cache.insert("a", None, "xy", term(None));
    assert_eq!(
        cache.get("a", Some("e"), "xy").unwrap().matched_term.as_deref(),
        Some("b")
    );
    assert_eq!(cache.get("a", None, "x\ny").unwrap().matched_term, None);
    assert!(cache.get("a", Some("f"), "xy").is_none());
    assert!(cache.get("a", Some("e"), "x，y").is_none());
    cache.insert("a", Some("e"), "xy", term(Some("c")));
    assert_eq!(
        cache.get("a", Some("e"), "xy").unwrap().matched_term.as_deref(),
        Some("c")
    );
}
