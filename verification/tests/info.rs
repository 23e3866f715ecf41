use comic_viewer::info::{id_line_to_append, parse_info_txt, Info};

const SAMPLE: &str = "ギャラリーID: 123456\nタイトル: Some Title: Part 2\n作者: Alice, Bob ,, \nグループ: N/A\n種類: manga\nシリーズ: original\nキャラクター: X,Y\nタグ: tag one, tag two\n言語: japanese\n";

#[test]
fn parses_every_field() {
    let info = parse_info_txt(SAMPLE);
    assert_eq!(info.gallery_id, Some(123456));
    assert_eq!(info.title, "Some Title: Part 2");
    assert_eq!(info.artists, vec!["Alice", "Bob"]);
    assert!(info.groups.is_empty());
    assert_eq!(info.gallery_type, "manga");
    assert_eq!(info.series, vec!["original"]);
    assert_eq!(info.characters, vec!["X", "Y"]);
    assert_eq!(info.tags, vec!["tag one", "tag two"]);
    assert_eq!(info.language, "japanese");
}

#[test]
fn empty_text_gives_empty_info() {
    let info = parse_info_txt("");
    assert_eq!(info.gallery_id, None);
    assert_eq!(info.title, "");
    assert!(info.artists.is_empty() && info.tags.is_empty());
}

#[test]
fn skips_lines_without_colon_and_unknown_keys() {
    let info = parse_info_txt("just text\n\n  \nunknown: value\nタイトル:x");
    assert_eq!(info.title, "x");
    assert_eq!(info.gallery_id, None);
}

#[test]
fn crlf_and_spaces_are_trimmed() {
    let info = parse_info_txt("  タイトル  :   Hello World  \r\n言語:\tenglish\r\n");
    assert_eq!(info.title, "Hello World");
    assert_eq!(info.language, "english");
}

#[test]
fn na_value_keeps_earlier_value() {
    let info = parse_info_txt("タイトル: first\nタイトル: N/A\n");
    assert_eq!(info.title, "first");
}

#[test]
fn later_line_wins() {
    let info = parse_info_txt("タイトル: first\nタイトル: second\n");
    assert_eq!(info.title, "second");
}

#[test]
fn gallery_id_parsing_follows_i64_parse() {
    assert_eq!(parse_info_txt("ギャラリーID: +17").gallery_id, Some(17));
    assert_eq!(parse_info_txt("ギャラリーID: -9223372036854775808").gallery_id, Some(i64::MIN));
    assert_eq!(parse_info_txt("ギャラリーID: 9223372036854775807").gallery_id, Some(i64::MAX));
    assert_eq!(parse_info_txt("ギャラリーID: 9223372036854775808").gallery_id, None);
    assert_eq!(parse_info_txt("ギャラリーID: 12a").gallery_id, None);
    assert_eq!(parse_info_txt("ギャラリーID: -").gallery_id, None);
    assert_eq!(parse_info_txt("ギャラリーID: 1\nギャラリーID: x").gallery_id, None);
}

#[test]
fn id_line_only_for_galleries_without_id() {
    let with_id = parse_info_txt("ギャラリーID: 5\n");
    assert_eq!(id_line_to_append(&with_id, 5), None);
    let without = parse_info_txt("タイトル: t\n");
    assert_eq!(id_line_to_append(&without, -3), Some("ギャラリーID: -3\n".to_string()));
    assert_eq!(
        id_line_to_append(&without, i64::MIN),
        Some(format!("ギャラリーID: {}\n", i64::MIN))
    );
    assert_eq!(id_line_to_append(&without, 0), Some("ギャラリーID: 0\n".to_string()));
}

#[test]
fn appended_id_line_reads_back() {
    let content = "タイトル: t\nギャラリーID: oops\n";
    let info = parse_info_txt(content);
    let line = id_line_to_append(&info, -42).unwrap();
    let again = parse_info_txt(&(content.to_string() + &line));
    assert_eq!(again.gallery_id, Some(-42));
    assert_eq!(again.title, "t");
}

#[test]
fn id_line_after_unterminated_last_line_is_not_read_back() {
    let content = "言語: japanese";
    let info = parse_info_txt(content);
    let line = id_line_to_append(&info, 7).unwrap();
    let again = parse_info_txt(&(content.to_string() + &line));
    assert_eq!(again.gallery_id, None);
    assert_eq!(again.language, "japaneseギャラリーID: 7");
}

#[test]
fn default_info_is_empty() {
    let info = Info::default();
    assert_eq!(info.gallery_id, None);
    assert!(info.title.is_empty() && info.gallery_type.is_empty() && info.language.is_empty());
}
