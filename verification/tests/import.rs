use comic_viewer::import::{
    add_item_statement, link_statement, lowest_id_statement, ImportAction, ImportEvent,
    ImportSession, NameTable,
};
use comic_viewer::info::parse_info_txt;
use comic_viewer::query::Relation;
use std::collections::HashMap;

/// A database of names kept in memory, answering a session's actions, with a
/// log of what it was asked.
struct FakeDb {
    names: HashMap<(String, String), i64>,
    next_id: i64,
    lowest: Option<i64>,
    log: Vec<String>,
}

impl FakeDb {
    fn new(lowest: Option<i64>) -> Self {
        FakeDb { names: HashMap::new(), next_id: 100, lowest, log: Vec::new() }
    }

    fn table(t: &NameTable) -> String {
        match t {
            NameTable::Types => "types".to_string(),
            NameTable::Languages => "languages".to_string(),
            NameTable::Related(r) => r.master_table().to_string(),
        }
    }

    /// Runs the session to its commit; returns the item id.
    fn run(&mut self, mut session: ImportSession, mut action: ImportAction) -> i64 {
        loop {
            let event = match &action {
                ImportAction::FindName { table, name } => {
                    self.log.push(format!("find {} {}", Self::table(table), name));
                    ImportEvent::NameFound(self.names.get(&(Self::table(table), name.clone())).copied())
                }
                ImportAction::AddName { table, name } => {
                    self.log.push(format!("add {} {}", Self::table(table), name));
                    self.next_id += 1;
                    self.names.insert((Self::table(table), name.clone()), self.next_id);
                    ImportEvent::NameAdded(self.next_id)
                }
                ImportAction::FindLowestId => {
                    self.log.push("lowest".to_string());
                    ImportEvent::LowestId(self.lowest)
                }
                ImportAction::AddItem { item, keep_existing } => {
                    self.log.push(format!(
                        "item {} {} {} {:?} {} {} {}",
                        item.id, item.title, item.type_id, item.language_id, item.path, item.page_count, keep_existing
                    ));
                    ImportEvent::Done
                }
                ImportAction::Link { relation, name_id, item_id } => {
                    self.log.push(format!("link {} {} {}", relation.master_table(), name_id, item_id));
                    ImportEvent::Done
                }
                ImportAction::Commit { item_id } => return *item_id,
            };
            assert!(session.ready() && session.accepts(&event));
            action = session.step(event);
        }
    }
}

#[test]
fn gallery_with_id_keeps_it() {
    let info = parse_info_txt("ギャラリーID: 42\n種類: manga\n言語: japanese\n作者: a, b\nタグ: t\n");
    let (s, a) = ImportSession::start(&info, "/lib/g", 12);
    let mut db = FakeDb::new(None);
    db.names.insert(("artists".to_string(), "b".to_string()), 7);
    assert_eq!(db.run(s, a), 42);
    assert_eq!(
        db.log,
        vec![
            "find types manga",
            "add types manga",
            "find languages japanese",
            "add languages japanese",
            "item 42  101 Some(102) /lib/g 12 true",
            "find artists a",
            "add artists a",
            "link artists 103 42",
            "find artists b",
            "link artists 7 42",
            "find tags t",
            "add tags t",
            "link tags 104 42",
        ]
    );
}

#[test]
fn gallery_without_id_gets_next_negative_id() {
    let info = parse_info_txt("タイトル: T\n");
    let (s, a) = ImportSession::start(&info, "p", 0);
    let mut db = FakeDb::new(Some(-5));
    db.names.insert(("types".to_string(), "unknown".to_string()), 3);
    assert_eq!(db.run(s, a), -6);
    assert_eq!(db.log, vec!["find types unknown", "lowest", "item -6 T 3 None p 0 false"]);
}

#[test]
fn first_gallery_without_id_is_minus_one() {
    let info = parse_info_txt("");
    let (s, a) = ImportSession::start(&info, "", 1);
    let mut db = FakeDb::new(None);
    assert_eq!(db.run(s, a), -1);
}

#[test]
fn empty_names_are_skipped_and_order_is_fixed() {
    let mut info = parse_info_txt("種類: doujinshi\n");
    info.tags = vec!["t1".to_string(), "".to_string()];
    info.artists = vec!["".to_string()];
    info.groups = vec!["g".to_string()];
    info.series = vec!["s".to_string()];
    info.characters = vec!["c".to_string()];
    let (s, a) = ImportSession::start(&info, "d", 2);
    let mut db = FakeDb::new(Some(-1));
    assert_eq!(db.run(s, a), -2);
    let finds: Vec<&String> = db.log.iter().filter(|l| l.starts_with("find")).collect();
    assert_eq!(
        finds,
        vec!["find types doujinshi", "find groups g", "find series s", "find characters c", "find tags t1"]
    );
}

#[test]
fn session_rejects_wrong_answers() {
    let info = parse_info_txt("");
    let (mut s, a) = ImportSession::start(&info, "", 0);
    assert!(matches!(a, ImportAction::FindName { table: NameTable::Types, .. }));
    assert!(s.ready());
    assert!(!s.accepts(&ImportEvent::Done));
    assert!(!s.accepts(&ImportEvent::NameAdded(1)));
    assert!(s.accepts(&ImportEvent::NameFound(None)));
    let a = s.step(ImportEvent::NameFound(Some(1)));
    assert!(matches!(a, ImportAction::FindLowestId));
    assert!(!s.accepts(&ImportEvent::LowestId(Some(i64::MIN))));
    assert!(s.accepts(&ImportEvent::LowestId(Some(-3))));
}

#[test]
fn statements_name_their_tables() {
    assert_eq!(NameTable::Types.find_sql(), "SELECT id FROM types WHERE name = ?1");
    assert_eq!(NameTable::Related(Relation::Tag).add_sql(), "INSERT INTO tags (name) VALUES (?1)");
    assert_eq!(NameTable::Languages.add_sql(), "INSERT INTO languages (name) VALUES (?1)");
    assert_eq!(link_statement(Relation::Character), "INSERT OR IGNORE INTO item_characters (character_id, item_id) VALUES (?1, ?2)");
    assert_eq!(lowest_id_statement(), "SELECT MIN(id) FROM items WHERE id < 0");
    assert_eq!(
        add_item_statement(true),
        "INSERT OR IGNORE INTO items (id, title, type_id, language_id, path, page_count) VALUES (?1, ?2, ?3, ?4, ?5, ?6)"
    );
    assert_eq!(
        add_item_statement(false),
        "INSERT INTO items (id, title, type_id, language_id, path, page_count) VALUES (?1, ?2, ?3, ?4, ?5, ?6)"
    );
}
