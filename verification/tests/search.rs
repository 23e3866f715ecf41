use comic_viewer::query::{build_search_query, tokenize_query};

const HEAD: &str = "SELECT DISTINCT i.path FROM items i WHERE 1=1";
const TAIL: &str = " ORDER BY i.id DESC";

fn sql_of(conditions: &str) -> String {
    format!("{HEAD}{conditions}{TAIL}")
}

#[test]
fn tokenize_splits_on_white_space() {
    assert_eq!(tokenize_query("tag:foo  artist:bar\thello"), vec!["tag:foo", "artist:bar", "hello"]);
}

#[test]
fn tokenize_keeps_quoted_spaces_and_drops_quotes() {
    assert_eq!(
        tokenize_query(r#"tag:"big eyes" -artist:foo"#),
        vec!["tag:big eyes", "-artist:foo"]
    );
    assert_eq!(tokenize_query(r#"a"b c"d e"#), vec!["ab cd", "e"]);
}

#[test]
fn tokenize_unterminated_quote_runs_to_the_end() {
    assert_eq!(tokenize_query(r#"x "a b"#), vec!["x", "a b"]);
}

#[test]
fn tokenize_never_yields_empty_terms() {
    assert!(tokenize_query("").is_empty());
    assert!(tokenize_query("   \t\n ").is_empty());
    assert!(tokenize_query(r#""" """#).is_empty());
    assert_eq!(tokenize_query(r#"" a ""#), vec![" a "]);
}

#[test]
fn tokenize_uses_unicode_white_space() {
    assert_eq!(tokenize_query("a\u{3000}b\u{a0}c"), vec!["a", "b", "c"]);
}

#[test]
fn tokenize_concatenation_law_on_example() {
    let q = r#"one "two three"  four"#;
    let joined: String = tokenize_query(q).concat();
    assert_eq!(joined, "onetwo threefour");
}

#[test]
fn empty_query_selects_everything() {
    let q = build_search_query("");
    assert_eq!(q.sql, sql_of(""));
    assert!(q.params.is_empty());
}

#[test]
fn relation_prefixes_use_link_tables() {
    let q = build_search_query("tag:foo -Artist:bar");
    assert_eq!(
        q.sql,
        sql_of(&[" AND EXISTS (SELECT 1 FROM item_tags rel JOIN tags m ON rel.tag_id = m.id WHERE rel.item_id = i.id AND m.name = ?)",
            " AND NOT EXISTS (SELECT 1 FROM item_artists rel JOIN artists m ON rel.artist_id = m.id WHERE rel.item_id = i.id AND m.name = ?)"
        ].concat())
    );
    assert_eq!(q.params, vec!["foo", "bar"]);
}

#[test]
fn every_relation_prefix_is_known() {
    for (prefix, link, master, col) in [
        ("group", "item_groups", "groups", "group_id"),
        ("SERIES", "item_series", "series", "series_id"),
        ("character", "item_characters", "characters", "character_id"),
    ] {
        let q = build_search_query(&format!("{prefix}:v"));
        assert_eq!(
            q.sql,
            sql_of(&format!(
                " AND EXISTS (SELECT 1 FROM {link} rel JOIN {master} m ON rel.{col} = m.id WHERE rel.item_id = i.id AND m.name = ?)"
            ))
        );
        assert_eq!(q.params, vec!["v"]);
    }
}

#[test]
fn language_and_type_filters() {
    let q = build_search_query("language:japanese -type:manga");
    assert_eq!(
        q.sql,
        sql_of(&[" AND i.language_id IN (SELECT id FROM languages WHERE name = ?)",
            " AND (i.type_id IS NULL OR i.type_id NOT IN (SELECT id FROM types WHERE name = ?))"
        ].concat())
    );
    assert_eq!(q.params, vec!["japanese", "manga"]);
    let q = build_search_query("-language:x type:y");
    assert_eq!(
        q.sql,
        sql_of(&[" AND (i.language_id IS NULL OR i.language_id NOT IN (SELECT id FROM languages WHERE name = ?))",
            " AND i.type_id IN (SELECT id FROM types WHERE name = ?)"
        ].concat())
    );
}

#[test]
fn titles_are_matched_with_escaped_wildcards() {
    let q = build_search_query(r"50%_off\ -draft");
    assert_eq!(
        q.sql,
        sql_of(" AND i.title LIKE ? ESCAPE '\\' AND i.title NOT LIKE ? ESCAPE '\\'")
    );
    assert_eq!(q.params, vec![r"%50\%\_off\\%", "%draft%"]);
}

#[test]
fn unknown_prefix_searches_the_whole_term_in_titles() {
    let q = build_search_query("volume:3");
    assert_eq!(q.sql, sql_of(" AND i.title LIKE ? ESCAPE '\\'"));
    assert_eq!(q.params, vec!["%volume:3%"]);
}

#[test]
fn value_keeps_later_colons() {
    let q = build_search_query("tag:a:b");
    assert_eq!(q.params, vec!["a:b"]);
}

#[test]
fn lone_minus_is_skipped() {
    let q = build_search_query("- x");
    assert_eq!(q.sql, sql_of(" AND i.title LIKE ? ESCAPE '\\'"));
    assert_eq!(q.params, vec!["%x%"]);
}

#[test]
fn placeholders_match_parameters() {
    let q = build_search_query(r#"tag:"a b" -series:c title -x language:d type:e"#);
    assert_eq!(q.sql.matches('?').count(), q.params.len());
    assert!(!q.sql.contains("a b"));
}
