//! Search suggestions: for each kind of attribute, the names in use with how
//! many items carry them, most used first; and the lookup that completes a
//! keyword from them.

use vstd::prelude::*;
use crate::text::{
    chars_of, contains_chars, has_substring, lowercase, to_lowercase,
};

verus! {

broadcast use {vstd::seq_lib::group_seq_properties, vstd::seq_lib::group_to_multiset_ensures};

/// One suggestion: the name as stored, the name in lower case for matching,
/// and the number of items that carry it.
pub type SuggestionEntry = (String, String, usize);

/// A suggestion with its texts as character sequences.
pub open spec fn entry_view(e: SuggestionEntry) -> (Seq<char>, Seq<char>, usize) {
    (e.0@, e.1@, e.2)
}

/// The views of a list of suggestions.
pub open spec fn entry_views(s: Seq<SuggestionEntry>) -> Seq<(Seq<char>, Seq<char>, usize)> {
    s.map_values(|e: SuggestionEntry| entry_view(e))
}

// ---------------------------------------------------------------------------
// Ordering
/// `a` comes strictly before `b` in the lexicographic order of code points,
/// which is the order of `String`s (UTF-8 keeps the order of code points).
pub open spec fn text_lt(a: Seq<char>, b: Seq<char>) -> bool
    decreases a.len(),
{
    if a.len() == 0 {
        b.len() > 0
    } else if b.len() == 0 {
        false
    } else if a[0] != b[0] {
        a[0] < b[0]
    } else {
        text_lt(a.drop_first(), b.drop_first())
    }
}

/// `a` comes strictly before `b` among suggestions: more items first, then
/// by name.
pub open spec fn suggestion_lt(a: (Seq<char>, Seq<char>, usize), b: (Seq<char>, Seq<char>, usize)) -> bool {
    a.2 > b.2 || (a.2 == b.2 && text_lt(a.0, b.0))
}

/// Whether `s` is in suggestion order: no entry comes strictly before one
/// that precedes it.
pub open spec fn suggestion_sorted(s: Seq<(Seq<char>, Seq<char>, usize)>) -> bool {
    forall|i: int, j: int| 0 <= i < j < s.len() ==> !suggestion_lt(#[trigger] s[j], #[trigger] s[i])
}

proof fn lemma_text_lt_trans(a: Seq<char>, b: Seq<char>, c: Seq<char>)
    requires
        text_lt(a, b),
        text_lt(b, c),
    ensures
        text_lt(a, c),
    decreases a.len(),
{
    if a.len() > 0 && b.len() > 0 && c.len() > 0 && a[0] == b[0] && b[0] == c[0] {
        lemma_text_lt_trans(a.drop_first(), b.drop_first(), c.drop_first());
    }
}

proof fn lemma_text_lt_total(a: Seq<char>, b: Seq<char>)
    ensures
        text_lt(a, b) || text_lt(b, a) || a == b,
    decreases a.len(),
{
    if a.len() > 0 && b.len() > 0 && a[0] == b[0] {
        lemma_text_lt_total(a.drop_first(), b.drop_first());
        if a.drop_first() == b.drop_first() {
            assert(a =~= seq![a[0]] + a.drop_first());
            assert(b =~= seq![b[0]] + b.drop_first());
        }
    } else if a.len() == 0 && b.len() == 0 {
        assert(a =~= b);
    }
}

proof fn lemma_text_lt_irrefl(a: Seq<char>)
    ensures
        !text_lt(a, a),
    decreases a.len(),
{
    if a.len() > 0 {
        lemma_text_lt_irrefl(a.drop_first());
    }
}

/// Whether `a` comes strictly before `b` in lexicographic code-point order.
pub fn text_less(a: &Vec<char>, b: &Vec<char>) -> (r: bool)
    ensures
        r == text_lt(a@, b@),
{
    let mut i: usize = 0;
    while i < a.len() && i < b.len() && a[i] == b[i]
        invariant
            i <= a.len(),
            i <= b.len(),
            text_lt(a@, b@) == text_lt(a@.skip(i as int), b@.skip(i as int)),
        decreases a.len() - i,
    {
        proof {
            assert(a@.skip(i as int).drop_first() =~= a@.skip(i + 1));
            assert(b@.skip(i as int).drop_first() =~= b@.skip(i + 1));
        }
        i = i + 1;
    }
    if i == a.len() {
        i < b.len()
    } else if i == b.len() {
        false
    } else {
        a[i] < b[i]
    }
}

fn entry_less(a: &SuggestionEntry, b: &SuggestionEntry) -> (r: bool)
    ensures
        r == suggestion_lt(entry_view(*a), entry_view(*b)),
{
    if a.2 != b.2 {
        a.2 > b.2
    } else {
        let x = chars_of(a.0.as_str());
        let y = chars_of(b.0.as_str());
        text_less(&x, &y)
    }
}

// ---------------------------------------------------------------------------
// Building a list
/// `usize::try_from(count).unwrap_or(0)`: a count that does not fit is 0.
pub open spec fn count_of(count: i64) -> usize {
    if 0 <= count && count <= usize::MAX {
        count as usize
    } else {
        0
    }
}

/// The suggestion that a stored name and its item count give.
pub open spec fn row_suggestion(row: (String, i64)) -> (Seq<char>, Seq<char>, usize) {
    (row.0@, lowercase(row.0@), count_of(row.1))
}

/// Whether `list` holds exactly the suggestions of `rows`, in suggestion
/// order.
pub open spec fn is_suggestion_list(
    list: Seq<(Seq<char>, Seq<char>, usize)>,
    rows: Seq<(String, i64)>,
) -> bool {
    &&& list.to_multiset() == rows.map_values(|r: (String, i64)| row_suggestion(r)).to_multiset()
    &&& suggestion_sorted(list)
}

proof fn lemma_insert_multiset<A>(s: Seq<A>, p: int, e: A)
    requires
        0 <= p <= s.len(),
    ensures
        s.insert(p, e).to_multiset() == s.to_multiset().insert(e),
{
    broadcast use vstd::multiset::group_multiset_axioms;

    let t = s.insert(p, e);
    assert(t.remove(p) =~= s);
    assert(t[p] == e);
    assert(t.to_multiset().count(e) > 0);
    assert(t.to_multiset() =~= s.to_multiset().insert(e));
}

/// The suggestions for one kind of attribute, from the rows of (name, number
/// of items) that the database gave: each name with its lower-case form, a
/// count that does not fit in `usize` taken as 0, sorted by count, highest
/// first, then by name.
pub fn make_suggestion_list(rows: &Vec<(String, i64)>) -> (r: Vec<SuggestionEntry>)
    ensures
        is_suggestion_list(entry_views(r@), rows@),
{
    let mut list: Vec<SuggestionEntry> = Vec::new();
    let mut i: usize = 0;
    let ghost model = rows@.map_values(|r: (String, i64)| row_suggestion(r));
    while i < rows.len()
        invariant
            i <= rows.len(),
            model == rows@.map_values(|r: (String, i64)| row_suggestion(r)),
            entry_views(list@).to_multiset() == model.take(i as int).to_multiset(),
            suggestion_sorted(entry_views(list@)),
        decreases rows.len() - i,
    {
        let name = rows[i].0.clone();
        let count = rows[i].1;
        let lower = to_lowercase(name.as_str());
        let n: usize = if count >= 0 && (count as u64) <= (usize::MAX as u64) {
            count as usize
        } else {
            0
        };
        let e: SuggestionEntry = (name, lower, n);
        assert(entry_view(e) == model[i as int]);
        // The first place where `e` comes strictly before the entry there.
        let mut p: usize = 0;
        while p < list.len() && !entry_less(&e, &list[p])
            invariant
                p <= list.len(),
                forall|k: int| 0 <= k < p ==> !suggestion_lt(entry_view(e), #[trigger] entry_views(list@)[k]),
            decreases list.len() - p,
        {
            p = p + 1;
        }
        let ghost old_views = entry_views(list@);
        list.insert(p, e);
        proof {
            let ev = entry_view(e);
            assert(entry_views(list@) =~= old_views.insert(p as int, ev));
            lemma_insert_multiset(old_views, p as int, ev);
            assert(model.take(i + 1) =~= model.take(i as int).push(ev));
            let nv = entry_views(list@);
            assert forall|a: int, b: int| 0 <= a < b < nv.len() implies !suggestion_lt(
                #[trigger] nv[b],
                #[trigger] nv[a],
            ) by {
                if b < p {
                    assert(nv[a] == old_views[a] && nv[b] == old_views[b]);
                } else if b == p {
                    assert(nv[a] == old_views[a]);
                } else if a < p {
                    assert(nv[a] == old_views[a] && nv[b] == old_views[b - 1]);
                } else if a == p {
                    // `ev` comes strictly before the entry it was put in front
                    // of, which no later entry comes strictly before.
                    assert(nv[b] == old_views[b - 1]);
                    assert(suggestion_lt(ev, old_views[p as int]));
                    if b - 1 > p {
                        assert(!suggestion_lt(old_views[b - 1], old_views[p as int]));
                    }
                    lemma_before_chain(ev, old_views[p as int], old_views[b - 1]);
                } else {
                    assert(nv[a] == old_views[a - 1] && nv[b] == old_views[b - 1]);
                }
            }
        }
        i = i + 1;
    }
    assert(model.take(rows.len() as int) =~= model);
    list
}

proof fn lemma_before_chain(
    e: (Seq<char>, Seq<char>, usize),
    x: (Seq<char>, Seq<char>, usize),
    y: (Seq<char>, Seq<char>, usize),
)
    requires
        suggestion_lt(e, x),
        x == y || !suggestion_lt(y, x),
    ensures
        !suggestion_lt(y, e),
{
    if suggestion_lt(y, e) && e.2 == x.2 && y.2 == e.2 {
        lemma_text_lt_trans(y.0, e.0, x.0);
        if x == y {
            lemma_text_lt_irrefl(x.0);
        }
    }
}

/// Whether every suggestion of `s` carries the lower-case form of its name.
pub open spec fn lower_cased(s: Seq<(Seq<char>, Seq<char>, usize)>) -> bool {
    forall|i: int| 0 <= i < s.len() ==> (#[trigger] s[i]).1 == lowercase(s[i].0)
}

proof fn lemma_rows_lower_cased(rows: Seq<(String, i64)>, list: Seq<(Seq<char>, Seq<char>, usize)>)
    requires
        is_suggestion_list(list, rows),
    ensures
        lower_cased(list),
{
    let model = rows.map_values(|r: (String, i64)| row_suggestion(r));
    assert forall|i: int| 0 <= i < list.len() implies (#[trigger] list[i]).1 == lowercase(list[i].0) by {
        assert(list.to_multiset().count(list[i]) > 0);
        assert(model.contains(list[i]));
        let k = choose|k: int| 0 <= k < model.len() && model[k] == list[i];
        assert(model[k] == row_suggestion(rows[k]));
    }
}

proof fn lemma_sorted_unique(a: Seq<(Seq<char>, Seq<char>, usize)>, b: Seq<(Seq<char>, Seq<char>, usize)>)
    requires
        a.to_multiset() == b.to_multiset(),
        suggestion_sorted(a),
        suggestion_sorted(b),
        lower_cased(a),
        lower_cased(b),
    ensures
        a == b,
    decreases a.len(),
{
    broadcast use vstd::multiset::group_multiset_axioms;

    a.to_multiset_ensures();
    b.to_multiset_ensures();
    assert(a.len() == b.len());
    if a.len() > 0 {
        let x = a[0];
        let y = b[0];
        assert(b.to_multiset().count(x) > 0);
        assert(a.to_multiset().count(y) > 0);
        let i = choose|i: int| 0 <= i < b.len() && b[i] == x;
        let j = choose|j: int| 0 <= j < a.len() && a[j] == y;
        assert(!suggestion_lt(x, y)) by {
            if i > 0 {
                assert(!suggestion_lt(b[i], b[0]));
            } else {
                lemma_text_lt_irrefl(x.0);
            }
        }
        assert(!suggestion_lt(y, x)) by {
            if j > 0 {
                assert(!suggestion_lt(a[j], a[0]));
            } else {
                lemma_text_lt_irrefl(y.0);
            }
        }
        lemma_text_lt_total(x.0, y.0);
        assert(x.1 == lowercase(x.0));
        assert(y.1 == lowercase(y.0));
        assert(x == y);
        let a1 = a.drop_first();
        let b1 = b.drop_first();
        assert(a.remove(0) =~= a1);
        assert(b.remove(0) =~= b1);
        assert(a1.to_multiset() =~= b1.to_multiset());
        assert(suggestion_sorted(a1)) by {
            assert forall|p: int, q: int| 0 <= p < q < a1.len() implies !suggestion_lt(
                #[trigger] a1[q],
                #[trigger] a1[p],
            ) by {
                assert(a1[q] == a[q + 1] && a1[p] == a[p + 1]);
            }
        }
        assert(suggestion_sorted(b1)) by {
            assert forall|p: int, q: int| 0 <= p < q < b1.len() implies !suggestion_lt(
                #[trigger] b1[q],
                #[trigger] b1[p],
            ) by {
                assert(b1[q] == b[q + 1] && b1[p] == b[p + 1]);
            }
        }
        assert(lower_cased(a1)) by {
            assert forall|p: int| 0 <= p < a1.len() implies (#[trigger] a1[p]).1 == lowercase(a1[p].0) by {
                assert(a1[p] == a[p + 1]);
            }
        }
        assert(lower_cased(b1)) by {
            assert forall|p: int| 0 <= p < b1.len() implies (#[trigger] b1[p]).1 == lowercase(b1[p].0) by {
                assert(b1[p] == b[p + 1]);
            }
        }
        lemma_sorted_unique(a1, b1);
        assert(a =~= b) by {
            assert forall|p: int| 0 <= p < a.len() implies a[p] == b[p] by {
                if p > 0 {
                    assert(a[p] == a1[p - 1] && b[p] == b1[p - 1]);
                }
            }
        }
    }
}

/// The suggestion list of a set of rows is determined by the rows alone, not
/// by the order in which the database gives them: any two lists that hold
/// the rows' suggestions in suggestion order are equal.
pub proof fn lemma_suggestion_list_unique(
    rows1: Seq<(String, i64)>,
    rows2: Seq<(String, i64)>,
    a: Seq<(Seq<char>, Seq<char>, usize)>,
    b: Seq<(Seq<char>, Seq<char>, usize)>,
)
    requires
        rows1.map_values(|r: (String, i64)| row_suggestion(r)).to_multiset() == rows2.map_values(
            |r: (String, i64)| row_suggestion(r),
        ).to_multiset(),
        is_suggestion_list(a, rows1),
        is_suggestion_list(b, rows2),
    ensures
        a == b,
{
    lemma_rows_lower_cased(rows1, a);
    lemma_rows_lower_cased(rows2, b);
    lemma_sorted_unique(a, b);
}

// ---------------------------------------------------------------------------
// The map of suggestions
/// The kinds and lists of a suggestion map, in the order they were added.
pub type SuggestionEntries = Seq<(String, Vec<SuggestionEntry>)>;

/// No kind appears twice.
pub open spec fn entries_wf(es: SuggestionEntries) -> bool {
    forall|i: int, j: int| 0 <= i < j < es.len() ==> #[trigger] es[i].0@ != #[trigger] es[j].0@
}

/// Whether some entry is for the kind `k`.
pub open spec fn entries_has_key(es: SuggestionEntries, k: Seq<char>) -> bool {
    exists|i: int| 0 <= i < es.len() && #[trigger] es[i].0@ == k
}

/// The index of the entry for the kind `k`.
pub open spec fn entries_key_index(es: SuggestionEntries, k: Seq<char>) -> int {
    choose|i: int| 0 <= i < es.len() && #[trigger] es[i].0@ == k
}

/// The lists by kind.
pub open spec fn entries_map(es: SuggestionEntries) -> Map<Seq<char>, Seq<SuggestionEntry>> {
    Map::new(
        |k: Seq<char>| entries_has_key(es, k),
        |k: Seq<char>| es[entries_key_index(es, k)].1@,
    )
}

fn find_entry(es: &Vec<(String, Vec<SuggestionEntry>)>, key: &Vec<char>) -> (r: Option<usize>)
    requires
        entries_wf(es@),
    ensures
        match r {
            Some(i) => i < es@.len() && es@[i as int].0@ == key@ && entries_key_index(es@, key@)
                == i && entries_has_key(es@, key@),
            None => !entries_has_key(es@, key@),
        },
{
    let mut i: usize = 0;
    while i < es.len()
        invariant
            entries_wf(es@),
            i <= es@.len(),
            forall|j: int| 0 <= j < i ==> #[trigger] es@[j].0@ != key@,
        decreases es.len() - i,
    {
        let k = chars_of(es[i].0.as_str());
        if crate::text::chars_eq(&k, key) {
            proof {
                let c = entries_key_index(es@, key@);
                assert(entries_has_key(es@, key@));
                if c != i {
                    if c < i {
                        assert(es@[c].0@ != es@[i as int].0@);
                    } else {
                        assert(es@[i as int].0@ != es@[c].0@);
                    }
                }
            }
            return Some(i);
        }
        i = i + 1;
    }
    None
}

fn insert_entry(es: &mut Vec<(String, Vec<SuggestionEntry>)>, kind: String, list: Vec<SuggestionEntry>)
    requires
        entries_wf(old(es)@),
    ensures
        entries_wf(final(es)@),
        entries_map(final(es)@) == entries_map(old(es)@).insert(kind@, list@),
{
    let key = chars_of(kind.as_str());
    let ghost kv = kind@;
    let ghost lv = list@;
    let ghost o = es@;
    match find_entry(es, &key) {
        Some(i) => {
            es.set(i, (kind, list));
            proof {
                assert(entries_wf(es@)) by {
                    assert forall|a: int, b: int|
                        0 <= a < b < es@.len() implies #[trigger] es@[a].0@
                        != #[trigger] es@[b].0@ by {
                        if a != i && b != i {
                            assert(o[a] == es@[a]);
                            assert(o[b] == es@[b]);
                        } else if a == i {
                            assert(o[b] == es@[b]);
                        } else {
                            assert(o[a] == es@[a]);
                        }
                    }
                }
                assert forall|k: Seq<char>| #[trigger] entries_has_key(es@, k) == entries_map(o).insert(kv, lv).contains_key(k) by {
                    if entries_has_key(o, k) && k != kv {
                        let c = entries_key_index(o, k);
                        assert(es@[c] == o[c]);
                    }
                    if entries_has_key(es@, k) && k != kv {
                        let c = entries_key_index(es@, k);
                        assert(c != i);
                        assert(es@[c] == o[c]);
                    }
                    if k == kv {
                        assert(es@[i as int].0@ == kv);
                    }
                }
                assert forall|k: Seq<char>| #[trigger] entries_has_key(es@, k) implies es@[entries_key_index(es@, k)].1@
                    == entries_map(o).insert(kv, lv)[k] by {
                    let c = entries_key_index(es@, k);
                    if k == kv {
                        if c != i {
                            if c < i {
                                assert(es@[c].0@ != es@[i as int].0@);
                            } else {
                                assert(es@[i as int].0@ != es@[c].0@);
                            }
                        }
                    } else {
                        assert(c != i);
                        assert(es@[c] == o[c]);
                        let c0 = entries_key_index(o, k);
                        assert(entries_has_key(o, k));
                        if c0 != c {
                            if c0 < c {
                                assert(o[c0].0@ != o[c].0@);
                            } else {
                                assert(o[c].0@ != o[c0].0@);
                            }
                        }
                    }
                }
                assert(entries_map(es@) =~= entries_map(o).insert(kv, lv));
            }
        },
        None => {
            es.push((kind, list));
            proof {
                let n = o.len() as int;
                assert(entries_wf(es@)) by {
                    assert forall|a: int, b: int|
                        0 <= a < b < es@.len() implies #[trigger] es@[a].0@
                        != #[trigger] es@[b].0@ by {
                        assert(es@[a] == o[a]);
                        if b < n {
                            assert(es@[b] == o[b]);
                        }
                    }
                }
                assert forall|k: Seq<char>| #[trigger] entries_has_key(es@, k) == entries_map(o).insert(kv, lv).contains_key(k) by {
                    if entries_has_key(o, k) {
                        let c = entries_key_index(o, k);
                        assert(es@[c] == o[c]);
                    }
                    if entries_has_key(es@, k) && k != kv {
                        let c = entries_key_index(es@, k);
                        assert(es@[c] == o[c]);
                    }
                    if k == kv {
                        assert(es@[n].0@ == kv);
                    }
                }
                assert forall|k: Seq<char>| #[trigger] entries_has_key(es@, k) implies es@[entries_key_index(es@, k)].1@
                    == entries_map(o).insert(kv, lv)[k] by {
                    let c = entries_key_index(es@, k);
                    if k == kv {
                        if c != n {
                            assert(es@[c] == o[c]);
                        }
                    } else {
                        assert(c != n);
                        assert(es@[c] == o[c]);
                        let c0 = entries_key_index(o, k);
                        assert(entries_has_key(o, k));
                        if c0 != c {
                            if c0 < c {
                                assert(o[c0].0@ != o[c].0@);
                            } else {
                                assert(o[c].0@ != o[c0].0@);
                            }
                        }
                    }
                }
                assert(entries_map(es@) =~= entries_map(o).insert(kv, lv));
            }
        },
    }
}

/// The suggestion lists by kind of attribute (`tag`, `artist`, ...), each
/// kind at most once.
pub struct SuggestionMap {
    entries: Vec<(String, Vec<SuggestionEntry>)>,
}

impl SuggestionMap {
    #[verifier::type_invariant]
    spec fn wf(&self) -> bool {
        entries_wf(self.entries@)
    }

    /// The lists by kind.
    pub closed spec fn as_map(&self) -> Map<Seq<char>, Seq<SuggestionEntry>> {
        entries_map(self.entries@)
    }

    /// A map with no kinds.
    pub fn new() -> (r: Self)
        ensures
            r@ == Map::<Seq<char>, Seq<SuggestionEntry>>::empty(),
    {
        let r = SuggestionMap { entries: Vec::new() };
        assert(r@ =~= Map::<Seq<char>, Seq<SuggestionEntry>>::empty());
        r
    }

    /// The list for `kind`, if there is one.
    pub fn get(&self, kind: &str) -> (r: Option<&Vec<SuggestionEntry>>)
        ensures
            match r {
                Some(v) => self@.contains_key(kind@) && self@[kind@] == v@,
                None => !self@.contains_key(kind@),
            },
    {
        proof {
            use_type_invariant(self);
        }
        let key = chars_of(kind);
        match find_entry(&self.entries, &key) {
            Some(i) => Some(&self.entries[i].1),
            None => None,
        }
    }

    /// Sets the list for `kind`, replacing the one it had.
    pub fn insert(&mut self, kind: String, list: Vec<SuggestionEntry>)
        ensures
            final(self)@ == old(self)@.insert(kind@, list@),
    {
        proof {
            use_type_invariant(&*self);
        }
        let mut es: Vec<(String, Vec<SuggestionEntry>)> = Vec::new();
        std::mem::swap(&mut es, &mut self.entries);
        insert_entry(&mut es, kind, list);
        self.entries = es;
    }
}

impl View for SuggestionMap {
    type V = Map<Seq<char>, Seq<SuggestionEntry>>;

    open spec fn view(&self) -> Map<Seq<char>, Seq<SuggestionEntry>> {
        self.as_map()
    }
}

// ---------------------------------------------------------------------------
// Aggregating all kinds
/// The kinds of suggestions and the SQL that counts, for each name of the
/// kind, the items that carry it.
pub open spec fn suggestion_sources() -> Seq<(Seq<char>, Seq<char>)> {
    seq![
        ("tag"@, "SELECT m.name, COUNT(r.item_id) as c FROM tags m JOIN item_tags r ON m.id = r.tag_id GROUP BY m.id"@),
        ("artist"@, "SELECT m.name, COUNT(r.item_id) as c FROM artists m JOIN item_artists r ON m.id = r.artist_id GROUP BY m.id"@),
        ("group"@, "SELECT m.name, COUNT(r.item_id) as c FROM groups m JOIN item_groups r ON m.id = r.group_id GROUP BY m.id"@),
        ("series"@, "SELECT m.name, COUNT(r.item_id) as c FROM series m JOIN item_series r ON m.id = r.series_id GROUP BY m.id"@),
        ("character"@, "SELECT m.name, COUNT(r.item_id) as c FROM characters m JOIN item_characters r ON m.id = r.character_id GROUP BY m.id"@),
        ("type"@, "SELECT m.name, COUNT(i.id) as c FROM types m JOIN items i ON m.id = i.type_id GROUP BY m.id"@),
        ("language"@, "SELECT m.name, COUNT(i.id) as c FROM languages m JOIN items i ON m.id = i.language_id GROUP BY m.id"@),
    ]
}

/// The kinds of suggestions, each with the SQL that counts its names' items.
pub fn suggestion_queries() -> (r: Vec<(&'static str, &'static str)>)
    ensures
        r@.map_values(|q: (&'static str, &'static str)| (q.0@, q.1@)) == suggestion_sources(),
{
    let r = vec![
        ("tag", "SELECT m.name, COUNT(r.item_id) as c FROM tags m JOIN item_tags r ON m.id = r.tag_id GROUP BY m.id"),
        ("artist", "SELECT m.name, COUNT(r.item_id) as c FROM artists m JOIN item_artists r ON m.id = r.artist_id GROUP BY m.id"),
        ("group", "SELECT m.name, COUNT(r.item_id) as c FROM groups m JOIN item_groups r ON m.id = r.group_id GROUP BY m.id"),
        ("series", "SELECT m.name, COUNT(r.item_id) as c FROM series m JOIN item_series r ON m.id = r.series_id GROUP BY m.id"),
        ("character", "SELECT m.name, COUNT(r.item_id) as c FROM characters m JOIN item_characters r ON m.id = r.character_id GROUP BY m.id"),
        ("type", "SELECT m.name, COUNT(i.id) as c FROM types m JOIN items i ON m.id = i.type_id GROUP BY m.id"),
        ("language", "SELECT m.name, COUNT(i.id) as c FROM languages m JOIN items i ON m.id = i.language_id GROUP BY m.id"),
    ];
    assert(r@.map_values(|q: (&'static str, &'static str)| (q.0@, q.1@)) =~= suggestion_sources());
    r
}

/// Whether the entry `a` of `results` is the last one for its kind.
pub open spec fn last_of_kind(results: Seq<(String, Vec<(String, i64)>)>, a: int) -> bool {
    forall|b: int| a < b < results.len() ==> #[trigger] results[b].0@ != results[a].0@
}

/// The suggestion map built from the rows that each kind's query gave:
/// every kind maps to its suggestion list; where a kind comes twice, the
/// later rows win.
pub fn aggregate_suggestions(results: &Vec<(String, Vec<(String, i64)>)>) -> (r: SuggestionMap)
    ensures
        forall|k: Seq<char>|
            #[trigger] r@.contains_key(k) <==> exists|a: int|
                0 <= a < results@.len() && #[trigger] results@[a].0@ == k,
        forall|a: int|
            0 <= a < results@.len() && last_of_kind(results@, a) ==> is_suggestion_list(
                entry_views(#[trigger] r@[results@[a].0@]),
                results@[a].1@,
            ),
{
    let mut map = SuggestionMap::new();
    let mut i: usize = 0;
    while i < results.len()
        invariant
            i <= results.len(),
            forall|k: Seq<char>|
                #[trigger] map@.contains_key(k) <==> exists|a: int|
                    0 <= a < i && #[trigger] results@[a].0@ == k,
            forall|a: int|
                0 <= a < i && last_of_kind(results@.take(i as int), a) ==> is_suggestion_list(
                    entry_views(#[trigger] map@[results@[a].0@]),
                    results@[a].1@,
                ),
        decreases results.len() - i,
    {
        let kind = results[i].0.clone();
        let list = make_suggestion_list(&results[i].1);
        let ghost old_map = map@;
        let ghost kv = kind@;
        map.insert(kind, list);
        proof {
            assert(kv == results@[i as int].0@);
            assert forall|k: Seq<char>|
                #[trigger] map@.contains_key(k) <==> exists|a: int|
                    0 <= a < i + 1 && #[trigger] results@[a].0@ == k by {
                if k == kv {
                    assert(results@[i as int].0@ == k);
                }
                if old_map.contains_key(k) {
                    let a = choose|a: int| 0 <= a < i && #[trigger] results@[a].0@ == k;
                    assert(0 <= a < i + 1 && results@[a].0@ == k);
                }
                if exists|a: int| 0 <= a < i + 1 && #[trigger] results@[a].0@ == k {
                    let a = choose|a: int| 0 <= a < i + 1 && #[trigger] results@[a].0@ == k;
                    if a < i {
                        assert(old_map.contains_key(k));
                    }
                }
            }
            assert forall|a: int|
                0 <= a < i + 1 && last_of_kind(results@.take(i + 1), a) implies is_suggestion_list(
                entry_views(#[trigger] map@[results@[a].0@]),
                results@[a].1@,
            ) by {
                if a < i {
                    assert(results@.take(i + 1)[i as int] == results@[i as int]);
                    assert(results@[a].0@ != kv);
                    assert(last_of_kind(results@.take(i as int), a)) by {
                        assert forall|b: int| a < b < results@.take(i as int).len() implies #[trigger] results@.take(
                            i as int,
                        )[b].0@ != results@.take(i as int)[a].0@ by {
                            assert(results@.take(i + 1)[b] == results@[b]);
                        }
                    }
                    assert(results@.take(i as int)[a] == results@[a]);
                }
            }
        }
        i = i + 1;
    }
    proof {
        assert(results@.take(results.len() as int) =~= results@);
    }
    map
}

// ---------------------------------------------------------------------------
// Completing a keyword
/// The names of the first `n` suggestions of `list` whose lower-case name
/// contains `keyword`, in list order.
pub open spec fn pick_suggestions(list: Seq<SuggestionEntry>, keyword: Seq<char>, n: nat) -> Seq<
    Seq<char>,
>
    decreases list.len(),
{
    if list.len() == 0 || n == 0 {
        Seq::empty()
    } else if has_substring(list[0].1@, keyword) {
        seq![list[0].0@] + pick_suggestions(list.drop_first(), keyword, (n - 1) as nat)
    } else {
        pick_suggestions(list.drop_first(), keyword, n)
    }
}

/// The most suggestions that a lookup returns.
pub open spec fn max_suggestions() -> nat {
    20
}

/// The suggestions for a kind and a keyword: the kind and the keyword are
/// taken in lower case; an unknown kind has none.
pub open spec fn suggestions_for(
    map: Map<Seq<char>, Seq<SuggestionEntry>>,
    prefix: Seq<char>,
    keyword: Seq<char>,
) -> Seq<Seq<char>> {
    let kind = lowercase(prefix);
    if map.contains_key(kind) {
        pick_suggestions(map[kind], lowercase(keyword), max_suggestions())
    } else {
        Seq::empty()
    }
}

/// A completion lists at most `n` names, each the name of a suggestion whose
/// lower-case form contains the keyword.
pub proof fn lemma_pick_suggestions(list: Seq<SuggestionEntry>, keyword: Seq<char>, n: nat)
    ensures
        pick_suggestions(list, keyword, n).len() <= n,
        pick_suggestions(list, keyword, n).len() <= list.len(),
        forall|j: int|
            #![trigger pick_suggestions(list, keyword, n)[j]]
            0 <= j < pick_suggestions(list, keyword, n).len() ==> picked_from(
                list,
                keyword,
                pick_suggestions(list, keyword, n)[j],
            ),
    decreases list.len(),
{
    if list.len() > 0 && n > 0 {
        let rest = list.drop_first();
        let p = pick_suggestions(list, keyword, n);
        if has_substring(list[0].1@, keyword) {
            lemma_pick_suggestions(rest, keyword, (n - 1) as nat);
            let q = pick_suggestions(rest, keyword, (n - 1) as nat);
            assert(p == seq![list[0].0@] + q);
            assert forall|j: int| #![trigger p[j]] 0 <= j < p.len() implies picked_from(
                list,
                keyword,
                p[j],
            ) by {
                if j == 0 {
                    assert(list[0].0@ == p[0] && has_substring(list[0].1@, keyword));
                } else {
                    assert(p[j] == q[j - 1]);
                    assert(picked_from(rest, keyword, q[j - 1]));
                    let i = choose|i: int|
                        0 <= i < rest.len() && #[trigger] rest[i].0@ == q[j - 1] && has_substring(
                            rest[i].1@,
                            keyword,
                        );
                    assert(list[i + 1] == rest[i]);
                }
            }
        } else {
            lemma_pick_suggestions(rest, keyword, n);
            assert(p == pick_suggestions(rest, keyword, n));
            assert forall|j: int| #![trigger p[j]] 0 <= j < p.len() implies picked_from(
                list,
                keyword,
                p[j],
            ) by {
                assert(picked_from(rest, keyword, p[j]));
                let i = choose|i: int|
                    0 <= i < rest.len() && #[trigger] rest[i].0@ == p[j] && has_substring(
                        rest[i].1@,
                        keyword,
                    );
                assert(list[i + 1] == rest[i]);
            }
        }
    }
}

/// Whether `name` is the name of a suggestion of `list` whose lower-case form
/// contains `keyword`.
pub open spec fn picked_from(list: Seq<SuggestionEntry>, keyword: Seq<char>, name: Seq<char>) -> bool {
    exists|i: int|
        0 <= i < list.len() && #[trigger] list[i].0@ == name && has_substring(list[i].1@, keyword)
}

/// Storing a list for a kind makes the map give that list for the kind and
/// leaves every other kind as it was.
pub proof fn lemma_map_read_back(
    before: Map<Seq<char>, Seq<SuggestionEntry>>,
    after: Map<Seq<char>, Seq<SuggestionEntry>>,
    kind: Seq<char>,
    list: Seq<SuggestionEntry>,
    other: Seq<char>,
)
    requires
        after == before.insert(kind, list),
    ensures
        after.contains_key(kind) && after[kind] == list,
        other != kind ==> after.contains_key(other) == before.contains_key(other),
        other != kind && before.contains_key(other) ==> after[other] == before[other],
{
}

/// Up to 20 names of the kind `prefix` (in any case) whose lower-case form
/// contains `keyword` in lower case, most used first.
pub fn get_suggestions(cache: &SuggestionMap, prefix: &str, keyword: &str) -> (r: Vec<String>)
    ensures
        crate::query::string_views(r@) == suggestions_for(cache@, prefix@, keyword@),
{
    let kind = to_lowercase(prefix);
    let list = match cache.get(kind.as_str()) {
        Some(l) => l,
        None => {
            return Vec::new();
        },
    };
    let kw_string = to_lowercase(keyword);
    let kw = chars_of(kw_string.as_str());
    let ghost want = pick_suggestions(list@, kw@, max_suggestions());
    let mut out: Vec<String> = Vec::new();
    let mut i: usize = 0;
    while i < list.len() && out.len() < 20
        invariant
            i <= list.len(),
            out.len() <= 20,
            crate::query::string_views(out@) + pick_suggestions(
                list@.skip(i as int),
                kw@,
                (20 - out.len()) as nat,
            ) == want,
            want == pick_suggestions(list@, kw@, 20),
        decreases list.len() - i,
    {
        let lower = chars_of(list[i].1.as_str());
        let ghost rest = list@.skip(i as int);
        let ghost n = (20 - out.len()) as nat;
        proof {
            assert(rest.drop_first() =~= list@.skip(i + 1));
            assert(rest[0] == list@[i as int]);
        }
        if contains_chars(&lower, &kw) {
            let ghost before = out@;
            out.push(list[i].0.clone());
            proof {
                assert(crate::query::string_views(out@) =~= crate::query::string_views(before).push(
                    list@[i as int].0@,
                ));
                assert(crate::query::string_views(out@) + pick_suggestions(
                    list@.skip(i + 1),
                    kw@,
                    (20 - out.len()) as nat,
                ) =~= crate::query::string_views(before) + pick_suggestions(rest, kw@, n));
            }
        }
        i = i + 1;
    }
    proof {
        if i == list.len() {
            assert(list@.skip(i as int).len() == 0);
        }
        assert(crate::query::string_views(out@) =~= crate::query::string_views(out@) + Seq::<
            Seq<char>,
        >::empty());
    }
    out
}

// ---------------------------------------------------------------------------
// The cache shared by the application
/// The lock that guards a value shared between threads (`std::sync::RwLock`).
#[verifier::external_type_specification]
#[verifier::external_body]
#[verifier::reject_recursive_types(T)]
pub struct ExRwLock<T: ?Sized>(std::sync::RwLock<T>);

/// The suggestions held in memory between imports, shared by the threads
/// that answer requests. The lock is private: it is taken only inside the
/// methods below, and released before each returns, so no thread ever holds
/// it while it calls one of them.
pub struct SuggestionCache(std::sync::RwLock<SuggestionMap>);

/// `RwLock::new`: a lock that guards `map`. Nothing is claimed of it, since
/// what a lock guards is not visible to contracts.
#[verifier::external_body]
fn new_lock(map: SuggestionMap) -> (r: std::sync::RwLock<SuggestionMap>) {
    std::sync::RwLock::new(map)
}

/// A shared hold on the value that an `RwLock` guards
/// (`std::sync::RwLockReadGuard`).
#[verifier::external_type_specification]
#[verifier::external_body]
#[verifier::reject_recursive_types(T)]
pub struct ExRwLockReadGuard<'a, T: ?Sized>(std::sync::RwLockReadGuard<'a, T>);

/// An exclusive hold on the value that an `RwLock` guards
/// (`std::sync::RwLockWriteGuard`).
#[verifier::external_type_specification]
#[verifier::external_body]
#[verifier::reject_recursive_types(T)]
pub struct ExRwLockWriteGuard<'a, T: ?Sized + 'a>(std::sync::RwLockWriteGuard<'a, T>);

/// `RwLock::read`, with a poisoned lock as `None`. Nothing is claimed of the
/// value it guards: other threads may have stored any map. `RwLock::read`
/// may panic where the calling thread holds the lock already; it is called
/// only on the private lock of a `SuggestionCache`, which no thread holds
/// while it calls a method of the cache.
#[verifier::external_body]
fn read_lock<'a>(lock: &'a std::sync::RwLock<SuggestionMap>) -> (r: Option<
    std::sync::RwLockReadGuard<'a, SuggestionMap>,
>) {
    lock.read().ok()
}

/// The value that a read guard holds (`Deref`). Nothing is claimed of it.
#[verifier::external_body]
fn read_guard_value<'a>(guard: &'a std::sync::RwLockReadGuard<'_, SuggestionMap>) -> (r:
    &'a SuggestionMap) {
    &**guard
}

/// `RwLock::write`, with a poisoned lock as `None`. `RwLock::write` may
/// panic where the calling thread holds the lock already; it is called only
/// on the private lock of a `SuggestionCache`, which no thread holds while it
/// calls a method of the cache.
#[verifier::external_body]
fn write_lock<'a>(lock: &'a std::sync::RwLock<SuggestionMap>) -> (r: Option<
    std::sync::RwLockWriteGuard<'a, SuggestionMap>,
>) {
    lock.write().ok()
}

/// Replaces the value that a write guard holds (`DerefMut`). Since the value
/// is not visible to contracts, nothing is claimed of it.
#[verifier::external_body]
fn write_guard_store(guard: &mut std::sync::RwLockWriteGuard<'_, SuggestionMap>, map: SuggestionMap) {
    **guard = map;
}

impl SuggestionCache {
    /// A cache that holds `map`.
    pub fn new(map: SuggestionMap) -> (r: Self) {
        SuggestionCache(new_lock(map))
    }

    /// Up to 20 names of the kind `prefix` whose lower-case form contains
    /// `keyword` in lower case, from the cached suggestions (see
    /// `get_suggestions`); an error where the cache's lock is poisoned.
    pub fn suggestions(&self, prefix: &str, keyword: &str) -> (r: Result<Vec<String>, String>)
        ensures
            match r {
                Ok(v) => exists|m: Map<Seq<char>, Seq<SuggestionEntry>>|
                    crate::query::string_views(v@) == suggestions_for(m, prefix@, keyword@),
                Err(e) => e@ == "Cache Lock Error"@,
            },
    {
        match read_lock(&self.0) {
            Some(guard) => {
                let map = read_guard_value(&guard);
                let v = get_suggestions(map, prefix, keyword);
                Ok(v)
            },
            None => Err(crate::text::string_from_str("Cache Lock Error")),
        }
    }

    /// Replaces the cached suggestions by `map`; an error where the cache's
    /// lock is poisoned.
    pub fn refresh(&self, map: SuggestionMap) -> (r: Result<(), String>)
        ensures
            r matches Err(e) ==> e@ == "Cache Write Error"@,
    {
        match write_lock(&self.0) {
            Some(mut guard) => {
                write_guard_store(&mut guard, map);
                Ok(())
            },
            None => Err(crate::text::string_from_str("Cache Write Error")),
        }
    }
}

} // verus!
