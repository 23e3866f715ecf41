use comic_viewer::suggest::{
    aggregate_suggestions, get_suggestions, make_suggestion_list, suggestion_queries,
    SuggestionCache, SuggestionMap,
};

fn rows(v: &[(&str, i64)]) -> Vec<(String, i64)> {
    v.iter().map(|(n, c)| (n.to_string(), *c)).collect()
}

#[test]
fn lists_sort_by_count_then_name() {
    let list = make_suggestion_list(&rows(&[("beta", 2), ("Alpha", 5), ("alpha", 2), ("Gamma", 5)]));
    let got: Vec<(&str, &str, usize)> = list.iter().map(|(a, b, c)| (a.as_str(), b.as_str(), *c)).collect();
    assert_eq!(
        got,
        vec![("Alpha", "alpha", 5), ("Gamma", "gamma", 5), ("alpha", "alpha", 2), ("beta", "beta", 2)]
    );
}

#[test]
fn negative_counts_become_zero() {
    let list = make_suggestion_list(&rows(&[("x", -4), ("y", 1)]));
    assert_eq!(list[0], ("y".to_string(), "y".to_string(), 1));
    assert_eq!(list[1], ("x".to_string(), "x".to_string(), 0));
}

#[test]
fn names_order_by_code_point() {
    let list = make_suggestion_list(&rows(&[("é", 1), ("z", 1), ("Z", 1), ("", 1)]));
    let names: Vec<&str> = list.iter().map(|e| e.0.as_str()).collect();
    assert_eq!(names, vec!["", "Z", "z", "é"]);
}

#[test]
fn lowercase_follows_unicode() {
    let list = make_suggestion_list(&rows(&[("ÄÖ", 1)]));
    assert_eq!(list[0].1, "äö");
}

#[test]
fn queries_cover_seven_kinds() {
    let q = suggestion_queries();
    let kinds: Vec<&str> = q.iter().map(|(k, _)| *k).collect();
    assert_eq!(kinds, vec!["tag", "artist", "group", "series", "character", "type", "language"]);
    assert_eq!(
        q[0].1,
        "SELECT m.name, COUNT(r.item_id) as c FROM tags m JOIN item_tags r ON m.id = r.tag_id GROUP BY m.id"
    );
    assert_eq!(
        q[6].1,
        "SELECT m.name, COUNT(i.id) as c FROM languages m JOIN items i ON m.id = i.language_id GROUP BY m.id"
    );
}

#[test]
fn map_reads_back_what_was_written() {
    let mut m = SuggestionMap::new();
    assert!(m.get("tag").is_none());
    m.insert("tag".to_string(), make_suggestion_list(&rows(&[("a", 1)])));
    m.insert("artist".to_string(), make_suggestion_list(&rows(&[("b", 2)])));
    m.insert("tag".to_string(), make_suggestion_list(&rows(&[("c", 3)])));
    assert_eq!(m.get("tag").unwrap()[0].0, "c");
    assert_eq!(m.get("artist").unwrap()[0].0, "b");
    assert!(m.get("group").is_none());
}

#[test]
fn aggregate_later_kind_wins() {
    let results = vec![
        ("tag".to_string(), rows(&[("x", 1)])),
        ("type".to_string(), rows(&[("manga", 3), ("doujinshi", 4)])),
        ("tag".to_string(), rows(&[("y", 2)])),
    ];
    let m = aggregate_suggestions(&results);
    assert_eq!(m.get("tag").unwrap().len(), 1);
    assert_eq!(m.get("tag").unwrap()[0].0, "y");
    let types: Vec<&str> = m.get("type").unwrap().iter().map(|e| e.0.as_str()).collect();
    assert_eq!(types, vec!["doujinshi", "manga"]);
}

fn sample_map() -> SuggestionMap {
    let mut tags = Vec::new();
    for i in 0..30 {
        tags.push((format!("Tag{i:02}"), 100 - i as i64));
    }
    tags.push(("Other".to_string(), 1));
    aggregate_suggestions(&vec![("tag".to_string(), tags), ("artist".to_string(), rows(&[("Bob", 1)]))])
}

#[test]
fn suggestions_are_limited_to_twenty() {
    let m = sample_map();
    let got = get_suggestions(&m, "TAG", "tag");
    assert_eq!(got.len(), 20);
    assert_eq!(got[0], "Tag00");
    assert_eq!(got[19], "Tag19");
}

#[test]
fn suggestions_match_substrings_case_insensitively() {
    let m = sample_map();
    assert_eq!(get_suggestions(&m, "tag", "G2"), vec!["Tag20", "Tag21", "Tag22", "Tag23", "Tag24", "Tag25", "Tag26", "Tag27", "Tag28", "Tag29"]);
    assert_eq!(get_suggestions(&m, "tag", "THE"), vec!["Other"]);
    assert_eq!(get_suggestions(&m, "Artist", ""), vec!["Bob"]);
}

#[test]
fn unknown_kind_has_no_suggestions() {
    let m = sample_map();
    assert!(get_suggestions(&m, "series", "").is_empty());
    assert!(get_suggestions(&m, "tag", "zzz").is_empty());
}

#[test]
fn cache_answers_and_refreshes() {
    let cache = SuggestionCache::new(SuggestionMap::new());
    assert_eq!(cache.suggestions("tag", "").unwrap(), Vec::<String>::new());
    cache.refresh(sample_map()).unwrap();
    assert_eq!(cache.suggestions("artist", "b").unwrap(), vec!["Bob"]);
}
