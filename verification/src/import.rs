//! Storing a gallery's metadata: the order of the database work that an
//! import does, as a session that answers each result with the next action.
//!
//! The session first resolves the id of the gallery's type (`unknown` when it
//! has none) and, if it has one, of its language, looking each name up and
//! adding it when it is missing; then it adds the item, under the gallery's
//! own id or, for a gallery without one, under a new negative id below every
//! negative id in use; then it resolves each non-empty artist, group,
//! series, character and tag name in turn and links it to the item; and
//! finally it commits.

use vstd::prelude::*;
use crate::info::{Info, InfoView};
use crate::query::{key_column, link_table, master_table, string_views, Relation};
use crate::text::{push_str, string_from_chars};

verus! {

broadcast use vstd::seq_lib::group_seq_properties;

// ---------------------------------------------------------------------------
// Tables of names
/// A table that holds names, each with an id.
#[derive(Clone, Copy, PartialEq, Eq, Structural, Debug)]
pub enum NameTable {
    Types,
    Languages,
    Related(Relation),
}

/// The name of the table.
pub open spec fn name_table(t: NameTable) -> Seq<char> {
    match t {
        NameTable::Types => "types"@,
        NameTable::Languages => "languages"@,
        NameTable::Related(r) => master_table(r),
    }
}

/// The statement that looks up a name's id.
pub open spec fn find_name_sql(t: NameTable) -> Seq<char> {
    "SELECT id FROM "@ + name_table(t) + " WHERE name = ?1"@
}

/// The statement that adds a name.
pub open spec fn add_name_sql(t: NameTable) -> Seq<char> {
    "INSERT INTO "@ + name_table(t) + " (name) VALUES (?1)"@
}

/// The statement that links a name of `r` to an item, unless they are linked.
pub open spec fn link_sql(r: Relation) -> Seq<char> {
    "INSERT OR IGNORE INTO "@ + link_table(r) + " ("@ + key_column(r)
        + ", item_id) VALUES (?1, ?2)"@
}

/// The statement that finds the lowest negative item id.
pub open spec fn lowest_id_sql() -> Seq<char> {
    "SELECT MIN(id) FROM items WHERE id < 0"@
}

/// The statement that adds an item; with `keep_existing`, an item that has
/// the id already stays as it is.
pub open spec fn add_item_sql(keep_existing: bool) -> Seq<char> {
    if keep_existing {
        "INSERT OR IGNORE INTO items (id, title, type_id, language_id, path, page_count) VALUES (?1, ?2, ?3, ?4, ?5, ?6)"@
    } else {
        "INSERT INTO items (id, title, type_id, language_id, path, page_count) VALUES (?1, ?2, ?3, ?4, ?5, ?6)"@
    }
}

impl NameTable {
    fn push_name(&self, out: &mut Vec<char>)
        ensures
            final(out)@ == old(out)@ + name_table(*self),
    {
        match self {
            NameTable::Types => push_str(out, "types"),
            NameTable::Languages => push_str(out, "languages"),
            NameTable::Related(r) => push_str(out, r.master_table()),
        }
    }

    /// The statement that looks up a name's id (parameter: the name).
    pub fn find_sql(&self) -> (r: String)
        ensures
            r@ == find_name_sql(*self),
    {
        let mut out: Vec<char> = Vec::new();
        push_str(&mut out, "SELECT id FROM ");
        self.push_name(&mut out);
        push_str(&mut out, " WHERE name = ?1");
        assert(out@ =~= find_name_sql(*self));
        string_from_chars(out.as_slice())
    }

    /// The statement that adds a name (parameter: the name).
    pub fn add_sql(&self) -> (r: String)
        ensures
            r@ == add_name_sql(*self),
    {
        let mut out: Vec<char> = Vec::new();
        push_str(&mut out, "INSERT INTO ");
        self.push_name(&mut out);
        push_str(&mut out, " (name) VALUES (?1)");
        assert(out@ =~= add_name_sql(*self));
        string_from_chars(out.as_slice())
    }
}

/// The statement that links a name of `r` to an item (parameters: the name's
/// id, the item's id).
pub fn link_statement(r: Relation) -> (s: String)
    ensures
        s@ == link_sql(r),
{
    let mut out: Vec<char> = Vec::new();
    push_str(&mut out, "INSERT OR IGNORE INTO ");
    push_str(&mut out, r.link_table());
    push_str(&mut out, " (");
    push_str(&mut out, r.key_column());
    push_str(&mut out, ", item_id) VALUES (?1, ?2)");
    assert(out@ =~= link_sql(r));
    string_from_chars(out.as_slice())
}

/// The statement that finds the lowest negative item id.
pub fn lowest_id_statement() -> (s: &'static str)
    ensures
        s@ == lowest_id_sql(),
{
    "SELECT MIN(id) FROM items WHERE id < 0"
}

/// The statement that adds an item (parameters: id, title, type id, language
/// id, path, page count).
pub fn add_item_statement(keep_existing: bool) -> (s: &'static str)
    ensures
        s@ == add_item_sql(keep_existing),
{
    if keep_existing {
        "INSERT OR IGNORE INTO items (id, title, type_id, language_id, path, page_count) VALUES (?1, ?2, ?3, ?4, ?5, ?6)"
    } else {
        "INSERT INTO items (id, title, type_id, language_id, path, page_count) VALUES (?1, ?2, ?3, ?4, ?5, ?6)"
    }
}

// ---------------------------------------------------------------------------
// The plan
/// One step of an import: resolving a name in a table, or (`None`) adding
/// the item.
pub type PlanStep = Option<(NameTable, String)>;

/// A step with its name as a character sequence.
pub open spec fn step_view(s: PlanStep) -> Option<(NameTable, Seq<char>)> {
    match s {
        Some((t, n)) => Some((t, n@)),
        None => None,
    }
}

/// The views of a list of steps.
pub open spec fn plan_views(p: Seq<PlanStep>) -> Seq<Option<(NameTable, Seq<char>)>> {
    p.map_values(|s: PlanStep| step_view(s))
}

/// The name under which a gallery's type is stored: `unknown` for none.
pub open spec fn type_key(info: InfoView) -> Seq<char> {
    if info.gallery_type.len() == 0 {
        "unknown"@
    } else {
        info.gallery_type
    }
}

/// The steps that resolve the non-empty names of `r`, in order.
pub open spec fn relation_steps(r: Relation, names: Seq<Seq<char>>) -> Seq<
    Option<(NameTable, Seq<char>)>,
>
    decreases names.len(),
{
    if names.len() == 0 {
        Seq::empty()
    } else {
        let before = relation_steps(r, names.drop_last());
        if names.last().len() > 0 {
            before.push(Some((NameTable::Related(r), names.last())))
        } else {
            before
        }
    }
}

/// The steps of importing `info`: its type, its language if it has one, the
/// item, then the names of its artists, groups, series, characters and tags.
pub open spec fn import_plan(info: InfoView) -> Seq<Option<(NameTable, Seq<char>)>> {
    seq![Some((NameTable::Types, type_key(info)))] + (if info.language.len() > 0 {
        seq![Some((NameTable::Languages, info.language))]
    } else {
        Seq::empty()
    }) + seq![None] + relation_steps(Relation::Artist, info.artists) + relation_steps(
        Relation::Group,
        info.groups,
    ) + relation_steps(Relation::Series, info.series) + relation_steps(
        Relation::Character,
        info.characters,
    ) + relation_steps(Relation::Tag, info.tags)
}

fn push_relation_steps(plan: &mut Vec<PlanStep>, r: Relation, names: &Vec<String>)
    ensures
        plan_views(final(plan)@) == plan_views(old(plan)@) + relation_steps(
            r,
            string_views(names@),
        ),
{
    let ghost start = plan_views(plan@);
    let ghost nv = string_views(names@);
    let mut i: usize = 0;
    while i < names.len()
        invariant
            i <= names.len(),
            nv == string_views(names@),
            plan_views(plan@) == start + relation_steps(r, nv.take(i as int)),
        decreases names.len() - i,
    {
        let ghost before = plan@;
        proof {
            assert(nv.take(i + 1).drop_last() =~= nv.take(i as int));
        }
        if !names[i].as_str().is_empty() {
            plan.push(Some((NameTable::Related(r), names[i].clone())));
            proof {
                assert(plan_views(plan@) =~= plan_views(before).push(
                    Some((NameTable::Related(r), nv[i as int])),
                ));
            }
        }
        i = i + 1;
    }
    assert(nv.take(names.len() as int) =~= nv);
}

// ---------------------------------------------------------------------------
// The session
/// What the session waits for.
#[derive(Clone, Copy, PartialEq, Eq, Structural, Debug)]
pub enum Phase {
    /// The id of the current step's name, if the table has it.
    Looking,
    /// The id of the current step's name, just added.
    Adding,
    /// The link of the current name to the item being made.
    Linking,
    /// The lowest negative item id, if any.
    FindingLowest,
    /// The item being added.
    AddingItem,
    /// Nothing: the import is complete and is to be committed.
    Finished,
}

/// What the database answered to the last action.
#[derive(Clone, Copy, PartialEq, Eq, Structural, Debug)]
pub enum ImportEvent {
    /// The id of the name looked up, or none where the table lacks it.
    NameFound(Option<i64>),
    /// The id of the name just added.
    NameAdded(i64),
    /// The lowest negative item id, or none where there is no such item.
    LowestId(Option<i64>),
    /// The statement ran.
    Done,
}

/// An item to add.
pub struct NewItem {
    pub id: i64,
    pub title: String,
    pub type_id: i64,
    pub language_id: Option<i64>,
    pub path: String,
    pub page_count: i64,
}

/// What the database is to do next.
pub enum ImportAction {
    /// Look up the id of `name` in `table`; answer `NameFound`.
    FindName { table: NameTable, name: String },
    /// Add `name` to `table`; answer `NameAdded` with its new id.
    AddName { table: NameTable, name: String },
    /// Find the lowest negative item id; answer `LowestId`.
    FindLowestId,
    /// Add the item (with `keep_existing`, leave an item with that id as it
    /// is); answer `Done`.
    AddItem { item: NewItem, keep_existing: bool },
    /// Link the name `name_id` of `relation` to the item; answer `Done`.
    Link { relation: Relation, name_id: i64, item_id: i64 },
    /// Commit: the gallery is stored as the item `item_id`.
    Commit { item_id: i64 },
}

/// The state of an import, with its texts as character sequences.
pub struct SessionView {
    pub plan: Seq<Option<(NameTable, Seq<char>)>>,
    pub pos: int,
    pub phase: Phase,
    pub gallery_id: Option<i64>,
    pub title: Seq<char>,
    pub path: Seq<char>,
    pub page_count: i64,
    pub type_id: i64,
    pub language_id: Option<i64>,
    pub item_id: i64,
    pub name_id: i64,
}

/// An import in progress.
pub struct ImportSession {
    plan: Vec<PlanStep>,
    pos: usize,
    phase: Phase,
    gallery_id: Option<i64>,
    title: String,
    path: String,
    page_count: i64,
    type_id: i64,
    language_id: Option<i64>,
    item_id: i64,
    name_id: i64,
}

impl View for ImportSession {
    type V = SessionView;

    closed spec fn view(&self) -> SessionView {
        SessionView {
            plan: plan_views(self.plan@),
            pos: self.pos as int,
            phase: self.phase,
            gallery_id: self.gallery_id,
            title: self.title@,
            path: self.path@,
            page_count: self.page_count,
            type_id: self.type_id,
            language_id: self.language_id,
            item_id: self.item_id,
            name_id: self.name_id,
        }
    }
}

/// The id of a new item for a gallery without one, from the lowest negative
/// id in use: one below it, or -1 where there is none.
pub open spec fn new_item_id(lowest: Option<i64>) -> int {
    match lowest {
        Some(m) => m - 1,
        None => -1,
    }
}

/// `s` at the start of its current step.
pub open spec fn enter_step(s: SessionView) -> SessionView {
    if s.pos >= s.plan.len() {
        SessionView { phase: Phase::Finished, ..s }
    } else if s.plan[s.pos] is Some {
        SessionView { phase: Phase::Looking, ..s }
    } else {
        match s.gallery_id {
            Some(g) => SessionView { phase: Phase::AddingItem, item_id: g, ..s },
            None => SessionView { phase: Phase::FindingLowest, ..s },
        }
    }
}

/// `s` at the start of the step after the current one.
pub open spec fn advance(s: SessionView) -> SessionView {
    enter_step(SessionView { pos: s.pos + 1, ..s })
}

/// `s` once the current step's name has the id `id`: the type and language
/// ids are kept, and a related name is then linked.
pub open spec fn resolved(s: SessionView, id: i64) -> SessionView {
    match s.plan[s.pos] {
        Some((NameTable::Types, _)) => advance(SessionView { type_id: id, ..s }),
        Some((NameTable::Languages, _)) => advance(SessionView { language_id: Some(id), ..s }),
        _ => SessionView { phase: Phase::Linking, name_id: id, ..s },
    }
}

/// The table of a step that resolves a name.
pub open spec fn step_table(step: Option<(NameTable, Seq<char>)>) -> Option<NameTable> {
    match step {
        Some((t, _)) => Some(t),
        None => None,
    }
}

/// Whether a step resolves a non-empty name.
pub open spec fn names_something(step: Option<(NameTable, Seq<char>)>) -> bool {
    match step {
        Some((_, n)) => n.len() > 0,
        None => false,
    }
}

/// Whether a step resolves a non-empty name of a relation.
pub open spec fn names_related(step: Option<(NameTable, Seq<char>)>) -> bool {
    match step {
        Some((NameTable::Related(_), n)) => n.len() > 0,
        _ => false,
    }
}

/// Whether `e` answers what `s` waits for.
pub open spec fn accepts(s: SessionView, e: ImportEvent) -> bool {
    match (s.phase, e) {
        (Phase::Looking, ImportEvent::NameFound(_)) => true,
        (Phase::Adding, ImportEvent::NameAdded(_)) => true,
        (Phase::Linking, ImportEvent::Done) => true,
        (Phase::AddingItem, ImportEvent::Done) => true,
        (Phase::FindingLowest, ImportEvent::LowestId(m)) => m != Some(i64::MIN),
        _ => false,
    }
}

/// The state after `s` receives `e`, which it accepts.
pub open spec fn next_state(s: SessionView, e: ImportEvent) -> SessionView {
    match e {
        ImportEvent::NameFound(Some(id)) => resolved(s, id),
        ImportEvent::NameFound(None) => SessionView { phase: Phase::Adding, ..s },
        ImportEvent::NameAdded(id) => resolved(s, id),
        ImportEvent::LowestId(m) => SessionView {
            phase: Phase::AddingItem,
            item_id: new_item_id(m) as i64,
            ..s
        },
        ImportEvent::Done => advance(s),
    }
}

/// Whether `a` is the action that `s` asks for.
pub open spec fn is_action_of(s: SessionView, a: ImportAction) -> bool {
    match s.phase {
        Phase::Looking => match a {
            ImportAction::FindName { table, name } => s.plan[s.pos] == Some((table, name@)),
            _ => false,
        },
        Phase::Adding => match a {
            ImportAction::AddName { table, name } => s.plan[s.pos] == Some((table, name@)),
            _ => false,
        },
        Phase::Linking => match a {
            ImportAction::Link { relation, name_id, item_id } => {
                &&& step_table(s.plan[s.pos]) == Some(NameTable::Related(relation))
                &&& name_id == s.name_id
                &&& item_id == s.item_id
            },
            _ => false,
        },
        Phase::FindingLowest => a is FindLowestId,
        Phase::AddingItem => match a {
            ImportAction::AddItem { item, keep_existing } => {
                &&& item.id == s.item_id
                &&& item.title@ == s.title
                &&& item.type_id == s.type_id
                &&& item.language_id == s.language_id
                &&& item.path@ == s.path
                &&& item.page_count == s.page_count
                &&& keep_existing == (s.gallery_id is Some)
            },
            _ => false,
        },
        Phase::Finished => match a {
            ImportAction::Commit { item_id } => item_id == s.item_id,
            _ => false,
        },
    }
}

/// The session that starts the import of `info`, found in `dir_path` with
/// `page_count` images.
pub open spec fn initial_session(info: InfoView, dir_path: Seq<char>, page_count: usize) -> SessionView {
    enter_step(
        SessionView {
            plan: import_plan(info),
            pos: 0,
            phase: Phase::Looking,
            gallery_id: info.gallery_id,
            title: info.title,
            path: dir_path,
            page_count: page_count as i64,
            type_id: 0,
            language_id: None,
            item_id: 0,
            name_id: 0,
        },
    )
}

/// How far the session is from its end: every answer lowers it.
pub open spec fn remaining_work(s: SessionView) -> int {
    3 * (s.plan.len() - s.pos) + match s.phase {
        Phase::Looking => 2int,
        Phase::FindingLowest => 2int,
        Phase::Adding => 1int,
        Phase::AddingItem => 1int,
        Phase::Linking => 0int,
        Phase::Finished => 0int,
    }
}

/// The session is where it should be: at a step of its plan, in a phase that
/// step has, or past the last step and finished.
pub open spec fn session_wf(s: SessionView) -> bool {
    &&& 0 <= s.pos <= s.plan.len()
    &&& (s.pos == s.plan.len() <==> s.phase == Phase::Finished)
    &&& s.pos < s.plan.len() ==> match s.phase {
        Phase::Looking | Phase::Adding => s.plan[s.pos] is Some,
        Phase::Linking => s.plan[s.pos] matches Some((NameTable::Related(_), _)),
        Phase::FindingLowest => s.plan[s.pos] is None && s.gallery_id is None,
        Phase::AddingItem => s.plan[s.pos] is None,
        Phase::Finished => false,
    }
}

impl ImportSession {
    /// The action that the session asks for now.
    fn action(&self) -> (a: ImportAction)
        requires
            session_wf(self@),
        ensures
            is_action_of(self@, a),
    {
        match self.phase {
            Phase::Looking => {
                let (t, n) = self.step_name();
                ImportAction::FindName { table: t, name: n }
            },
            Phase::Adding => {
                let (t, n) = self.step_name();
                ImportAction::AddName { table: t, name: n }
            },
            Phase::Linking => {
                let (t, _n) = self.step_name();
                match t {
                    NameTable::Related(r) => ImportAction::Link {
                        relation: r,
                        name_id: self.name_id,
                        item_id: self.item_id,
                    },
                    _ => ImportAction::Commit { item_id: self.item_id },
                }
            },
            Phase::FindingLowest => ImportAction::FindLowestId,
            Phase::AddingItem => ImportAction::AddItem {
                item: NewItem {
                    id: self.item_id,
                    title: self.title.clone(),
                    type_id: self.type_id,
                    language_id: self.language_id,
                    path: self.path.clone(),
                    page_count: self.page_count,
                },
                keep_existing: self.gallery_id.is_some(),
            },
            Phase::Finished => ImportAction::Commit { item_id: self.item_id },
        }
    }

    fn step_name(&self) -> (r: (NameTable, String))
        requires
            0 <= self.pos < self.plan@.len(),
            self.plan@[self.pos as int] is Some,
        ensures
            self@.plan[self@.pos] == Some((r.0, r.1@)),
    {
        match &self.plan[self.pos] {
            Some((t, n)) => (*t, n.clone()),
            None => (NameTable::Types, String::new()),
        }
    }

    fn enter(&mut self)
        requires
            old(self).pos <= old(self).plan@.len(),
        ensures
            final(self)@ == enter_step(old(self)@),
    {
        if self.pos >= self.plan.len() {
            self.phase = Phase::Finished;
        } else if self.plan[self.pos].is_some() {
            self.phase = Phase::Looking;
        } else {
            match self.gallery_id {
                Some(g) => {
                    self.phase = Phase::AddingItem;
                    self.item_id = g;
                },
                None => {
                    self.phase = Phase::FindingLowest;
                },
            }
        }
    }

    /// Moves on to the step after the current one.
    fn next_step(&mut self)
        requires
            old(self).pos < old(self).plan@.len(),
        ensures
            final(self)@ == advance(old(self)@),
    {
        let n = self.plan.len();
        if self.pos < n {
            self.pos = self.pos + 1;
        }
        self.enter();
    }

    fn resolve(&mut self, id: i64)
        requires
            session_wf(old(self)@),
            old(self)@.phase == Phase::Looking || old(self)@.phase == Phase::Adding,
        ensures
            final(self)@ == resolved(old(self)@, id),
    {
        let (t, _n) = self.step_name();
        match t {
            NameTable::Types => {
                self.type_id = id;
                self.next_step();
            },
            NameTable::Languages => {
                self.language_id = Some(id);
                self.next_step();
            },
            NameTable::Related(_) => {
                self.phase = Phase::Linking;
                self.name_id = id;
            },
        }
    }

    /// Starts importing `info`, found in the directory `dir_path` with
    /// `page_count` images, and returns the session with its first action.
    pub fn start(info: &Info, dir_path: &str, page_count: usize) -> (r: (ImportSession, ImportAction))
        ensures
            r.0@ == initial_session(info@, dir_path@, page_count),
            session_wf(r.0@),
            is_action_of(r.0@, r.1),
    {
        let mut plan: Vec<PlanStep> = Vec::new();
        let type_key_name = if info.gallery_type.as_str().is_empty() {
            crate::text::string_from_str("unknown")
        } else {
            info.gallery_type.clone()
        };
        plan.push(Some((NameTable::Types, type_key_name)));
        if !info.language.as_str().is_empty() {
            plan.push(Some((NameTable::Languages, info.language.clone())));
        }
        plan.push(None);
        let ghost head = plan_views(plan@);
        assert(head =~= seq![Some((NameTable::Types, type_key(info@)))] + (if info@.language.len()
            > 0 {
            seq![Some((NameTable::Languages, info@.language))]
        } else {
            Seq::empty()
        }) + seq![None]);
        push_relation_steps(&mut plan, Relation::Artist, &info.artists);
        push_relation_steps(&mut plan, Relation::Group, &info.groups);
        push_relation_steps(&mut plan, Relation::Series, &info.series);
        push_relation_steps(&mut plan, Relation::Character, &info.characters);
        push_relation_steps(&mut plan, Relation::Tag, &info.tags);
        assert(plan_views(plan@) =~= import_plan(info@));
        let mut s = ImportSession {
            plan,
            pos: 0,
            phase: Phase::Looking,
            gallery_id: info.gallery_id,
            title: info.title.clone(),
            path: crate::text::string_from_str(dir_path),
            page_count: page_count as i64,
            type_id: 0,
            language_id: None,
            item_id: 0,
            name_id: 0,
        };
        s.enter();
        let a = s.action();
        (s, a)
    }

    /// Whether the session stands where its plan allows (always so for a
    /// session made by `start` and advanced by `step`).
    pub fn ready(&self) -> (r: bool)
        ensures
            r == session_wf(self@),
    {
        let n = self.plan.len();
        if self.pos > n {
            return false;
        }
        if (self.pos == n) != (self.phase == Phase::Finished) {
            return false;
        }
        if self.pos == n {
            return true;
        }
        let step = &self.plan[self.pos];
        match self.phase {
            Phase::Looking | Phase::Adding => step.is_some(),
            Phase::Linking => match step {
                Some((NameTable::Related(_), _)) => true,
                _ => false,
            },
            Phase::FindingLowest => step.is_none() && self.gallery_id.is_none(),
            Phase::AddingItem => step.is_none(),
            Phase::Finished => false,
        }
    }

    /// Whether the session accepts `event` as the answer to its action.
    pub fn accepts(&self, event: &ImportEvent) -> (r: bool)
        ensures
            r == accepts(self@, *event),
    {
        match (self.phase, event) {
            (Phase::Looking, ImportEvent::NameFound(_)) => true,
            (Phase::Adding, ImportEvent::NameAdded(_)) => true,
            (Phase::Linking, ImportEvent::Done) => true,
            (Phase::AddingItem, ImportEvent::Done) => true,
            (Phase::FindingLowest, ImportEvent::LowestId(m)) => match m {
                Some(v) => *v != i64::MIN,
                None => true,
            },
            _ => false,
        }
    }

    /// Takes the answer to the last action and returns the next action.
    pub fn step(&mut self, event: ImportEvent) -> (a: ImportAction)
        requires
            session_wf(old(self)@),
            accepts(old(self)@, event),
        ensures
            final(self)@ == next_state(old(self)@, event),
            session_wf(final(self)@),
            is_action_of(final(self)@, a),
            remaining_work(final(self)@) < remaining_work(old(self)@),
    {
        match event {
            ImportEvent::NameFound(Some(id)) => self.resolve(id),
            ImportEvent::NameFound(None) => {
                self.phase = Phase::Adding;
            },
            ImportEvent::NameAdded(id) => self.resolve(id),
            ImportEvent::LowestId(m) => {
                self.item_id = match m {
                    Some(v) => v - 1,
                    None => -1,
                };
                self.phase = Phase::AddingItem;
            },
            ImportEvent::Done => {
                self.next_step();
            },
        }
        self.action()
    }
}

// ---------------------------------------------------------------------------
// Laws of an import
proof fn lemma_relation_steps_named(r: Relation, names: Seq<Seq<char>>)
    ensures
        forall|k: int|
            0 <= k < relation_steps(r, names).len() ==> names_related(
                #[trigger] relation_steps(r, names)[k],
            ) && step_table(relation_steps(r, names)[k]) == Some(NameTable::Related(r)),
    decreases names.len(),
{
    if names.len() > 0 {
        lemma_relation_steps_named(r, names.drop_last());
    }
}

/// Every step of an import but one resolves a non-empty name; the one left
/// adds the item, after the type (and language) and before every related
/// name. The type comes first, as `unknown` when the gallery has none.
pub proof fn lemma_import_plan_shape(info: InfoView)
    ensures
        ({
            let p = import_plan(info);
            let item_at: int = if info.language.len() > 0 {
                2
            } else {
                1
            };
            &&& p[0] == Some((NameTable::Types, type_key(info)))
            &&& p[item_at] is None
            &&& forall|k: int| 0 <= k < p.len() && k != item_at ==> names_something(#[trigger] p[k])
            &&& forall|k: int| item_at < k < p.len() ==> names_related(#[trigger] p[k])
        }),
{
    reveal_strlit("unknown");
    lemma_relation_steps_named(Relation::Artist, info.artists);
    lemma_relation_steps_named(Relation::Group, info.groups);
    lemma_relation_steps_named(Relation::Series, info.series);
    lemma_relation_steps_named(Relation::Character, info.characters);
    lemma_relation_steps_named(Relation::Tag, info.tags);
    let p = import_plan(info);
    let item_at: int = if info.language.len() > 0 {
        2
    } else {
        1
    };
    let a = relation_steps(Relation::Artist, info.artists);
    let g = relation_steps(Relation::Group, info.groups);
    let se = relation_steps(Relation::Series, info.series);
    let c = relation_steps(Relation::Character, info.characters);
    let t = relation_steps(Relation::Tag, info.tags);
    let head = seq![Some((NameTable::Types, type_key(info)))] + (if info.language.len() > 0 {
        seq![Some((NameTable::Languages, info.language))]
    } else {
        Seq::empty()
    }) + seq![None];
    assert(p =~= head + (a + (g + (se + (c + t)))));
    assert forall|k: int| item_at < k < p.len() implies names_related(#[trigger] p[k]) by {
        let j = k - head.len();
        assert(p[k] == (a + (g + (se + (c + t))))[j]);
        if j < a.len() {
            assert(p[k] == a[j]);
        } else if j < a.len() + g.len() {
            assert(p[k] == g[j - a.len()]);
        } else if j < a.len() + g.len() + se.len() {
            assert(p[k] == se[j - a.len() - g.len()]);
        } else if j < a.len() + g.len() + se.len() + c.len() {
            assert(p[k] == c[j - a.len() - g.len() - se.len()]);
        } else {
            assert(p[k] == t[j - a.len() - g.len() - se.len() - c.len()]);
        }
    }
}

/// Whether the session has reached the step that adds the item.
pub open spec fn item_reached(s: SessionView) -> bool {
    s.phase == Phase::AddingItem || exists|k: int| 0 <= k < s.pos && #[trigger] s.plan[k] is None
}

/// Once a gallery with its own id has reached the item step, the session's
/// item id is that id.
pub open spec fn keeps_own_id(s: SessionView) -> bool {
    s.gallery_id is Some && item_reached(s) ==> s.item_id == s.gallery_id->0
}

/// A new session keeps a gallery's own id.
pub proof fn lemma_own_id_initially(info: InfoView, dir_path: Seq<char>, page_count: usize)
    ensures
        keeps_own_id(initial_session(info, dir_path, page_count)),
{
}

/// Every answer keeps a gallery's own id as the item id, and changes neither
/// the plan nor the gallery's id.
pub proof fn lemma_own_id_kept(s: SessionView, e: ImportEvent)
    requires
        session_wf(s),
        accepts(s, e),
        keeps_own_id(s),
    ensures
        keeps_own_id(next_state(s, e)),
        next_state(s, e).plan == s.plan,
        next_state(s, e).gallery_id == s.gallery_id,
{
    let t = next_state(s, e);
    if t.gallery_id is Some && item_reached(t) {
        if t.phase != Phase::AddingItem {
            let k = choose|k: int| 0 <= k < t.pos && #[trigger] t.plan[k] is None;
            if k >= s.pos {
                // The step just left is the item step; it was added in phase
                // `AddingItem`, under the gallery's id.
                assert(k == s.pos);
                assert(s.phase == Phase::AddingItem);
            } else {
                assert(s.plan[k] is None);
            }
        }
    }
}

/// A finished import of a gallery with its own id commits that id.
pub proof fn lemma_commit_own_id(s: SessionView, info: InfoView)
    requires
        s.plan == import_plan(info),
        s.pos == s.plan.len(),
        keeps_own_id(s),
        info.gallery_id is Some,
        s.gallery_id == info.gallery_id,
    ensures
        s.item_id == info.gallery_id->0,
{
    lemma_import_plan_shape(info);
    let item_at: int = if info.language.len() > 0 {
        2
    } else {
        1
    };
    assert(s.plan[item_at] is None);
}

/// A new item id is negative and below the lowest negative id in use, so it
/// never takes the id of an item, nor a gallery's own (positive) id.
pub proof fn lemma_new_item_id_fresh(lowest: Option<i64>)
    requires
        lowest is Some ==> lowest->0 < 0 && lowest->0 != i64::MIN,
    ensures
        new_item_id(lowest) < 0,
        i64::MIN <= new_item_id(lowest),
        lowest is Some ==> new_item_id(lowest) < lowest->0,
{
}


/// A name gets the same id whether it was found in its table or had to be
/// added to it: the answer `NameFound(Some(id))` leaves the session as the
/// answers `NameFound(None)` and then `NameAdded(id)` do. With that id the
/// type step sets the item's type, the language step its language, and a
/// related name is linked under it; nothing else that is kept for the item
/// changes.
pub proof fn lemma_found_or_added(s: SessionView, id: i64)
    requires
        session_wf(s),
        s.phase == Phase::Looking,
    ensures
        next_state(s, ImportEvent::NameFound(Some(id))) == next_state(
            next_state(s, ImportEvent::NameFound(None)),
            ImportEvent::NameAdded(id),
        ),
        next_state(s, ImportEvent::NameFound(None)).phase == Phase::Adding,
        s.plan[s.pos] matches Some((NameTable::Languages, _)) ==> {
            let n = next_state(s, ImportEvent::NameFound(Some(id)));
            &&& n.language_id == Some(id)
            &&& n.type_id == s.type_id
            &&& n.pos == s.pos + 1
        },
        s.plan[s.pos] matches Some((NameTable::Types, _)) ==> {
            let n = next_state(s, ImportEvent::NameFound(Some(id)));
            &&& n.type_id == id
            &&& n.language_id == s.language_id
            &&& n.pos == s.pos + 1
        },
        s.plan[s.pos] matches Some((NameTable::Related(_), _)) ==> {
            let n = next_state(s, ImportEvent::NameFound(Some(id)));
            &&& n.phase == Phase::Linking
            &&& n.name_id == id
            &&& n.type_id == s.type_id
            &&& n.language_id == s.language_id
            &&& n.pos == s.pos
        },
{
}

/// The item's type and language ids change only at the steps that resolve
/// them: every other answer keeps both.
pub proof fn lemma_ids_kept(s: SessionView, e: ImportEvent)
    requires
        session_wf(s),
        accepts(s, e),
        (s.phase == Phase::Looking || s.phase == Phase::Adding) ==> s.plan[s.pos] matches Some(
            (NameTable::Related(_), _),
        ),
    ensures
        next_state(s, e).type_id == s.type_id,
        next_state(s, e).language_id == s.language_id,
{
}

/// The item that the session adds carries the ids it resolved: the action it
/// asks for while adding the item has the session's type and language ids.
pub proof fn lemma_item_carries_ids(s: SessionView, a: ImportAction)
    requires
        s.phase == Phase::AddingItem,
        is_action_of(s, a),
    ensures
        a matches ImportAction::AddItem { item, .. } && item.type_id == s.type_id
            && item.language_id == s.language_id,
{
}

} // verus!
