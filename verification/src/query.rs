//! Search queries: splitting a query into terms, and compiling the terms into
//! one parameterised SQL statement over the library's tables.

use vstd::prelude::*;
use crate::text::{
    chars_eq_str, chars_of, is_white_space, is_whitespace, lowercase, push_all, push_str,
    split_once, split_once_chars, string_from_chars, sub_vec, to_lowercase,
};

verus! {

broadcast use vstd::seq_lib::group_seq_properties;

// ---------------------------------------------------------------------------
// Tokenizing
/// Where the tokenizer stands after a prefix of the query: the terms it has
/// finished, the term it is reading, and whether it is inside quotes.
pub struct TokenizerState {
    pub terms: Seq<Seq<char>>,
    pub current: Seq<char>,
    pub in_quotes: bool,
}

/// One character of the query read in `st`: a `"` toggles quoting and is
/// dropped; white space outside quotes ends a non-empty term; any other
/// character extends the current term.
pub open spec fn tokenizer_step(st: TokenizerState, c: char) -> TokenizerState {
    if c == '"' {
        TokenizerState { in_quotes: !st.in_quotes, ..st }
    } else if is_white_space(c) && !st.in_quotes {
        if st.current.len() > 0 {
            TokenizerState { terms: st.terms.push(st.current), current: Seq::empty(), ..st }
        } else {
            st
        }
    } else {
        TokenizerState { current: st.current.push(c), ..st }
    }
}

/// The tokenizer's state after reading all of `s`.
pub open spec fn tokenizer_scan(s: Seq<char>) -> TokenizerState
    decreases s.len(),
{
    if s.len() == 0 {
        TokenizerState { terms: Seq::empty(), current: Seq::empty(), in_quotes: false }
    } else {
        tokenizer_step(tokenizer_scan(s.drop_last()), s.last())
    }
}

/// The terms of the query `s`.
pub open spec fn tokenize(s: Seq<char>) -> Seq<Seq<char>> {
    let st = tokenizer_scan(s);
    if st.current.len() > 0 {
        st.terms.push(st.current)
    } else {
        st.terms
    }
}

/// The views of a list of strings.
pub open spec fn string_views(v: Seq<String>) -> Seq<Seq<char>> {
    v.map_values(|t: String| t@)
}

/// Splits a search query into terms. White space separates terms except
/// between double quotes; the quote characters themselves are dropped, and no
/// term is empty.
pub fn tokenize_query(query_str: &str) -> (r: Vec<String>)
    ensures
        string_views(r@) == tokenize(query_str@),
{
    let s = chars_of(query_str);
    let mut terms: Vec<String> = Vec::new();
    let mut current: Vec<char> = Vec::new();
    let mut in_quotes = false;
    let mut i: usize = 0;
    while i < s.len()
        invariant
            i <= s.len(),
            s@ == query_str@,
            string_views(terms@) == tokenizer_scan(s@.take(i as int)).terms,
            current@ == tokenizer_scan(s@.take(i as int)).current,
            in_quotes == tokenizer_scan(s@.take(i as int)).in_quotes,
        decreases s.len() - i,
    {
        let c = s[i];
        proof {
            assert(s@.take(i + 1).drop_last() =~= s@.take(i as int));
        }
        if c == '"' {
            in_quotes = !in_quotes;
        } else if is_whitespace(c) && !in_quotes {
            if current.len() > 0 {
                let t = string_from_chars(current.as_slice());
                terms.push(t);
                current = Vec::new();
                proof {
                    assert(string_views(terms@) =~= tokenizer_scan(s@.take(i + 1)).terms);
                }
            }
        } else {
            current.push(c);
        }
        i = i + 1;
    }
    assert(s@.take(s.len() as int) =~= s@);
    if current.len() > 0 {
        let t = string_from_chars(current.as_slice());
        terms.push(t);
        assert(string_views(terms@) =~= tokenize(query_str@));
    }
    terms
}

// ---------------------------------------------------------------------------
// Laws of the tokenizer
/// The number of `"` characters in `s`.
pub open spec fn quote_count(s: Seq<char>) -> nat
    decreases s.len(),
{
    if s.len() == 0 {
        0
    } else {
        quote_count(s.drop_last()) + if s.last() == '"' {
            1nat
        } else {
            0nat
        }
    }
}

/// Whether a character that follows `s` stands inside quotes: after an odd
/// number of `"`.
pub open spec fn inside_quotes(s: Seq<char>) -> bool {
    quote_count(s) % 2 == 1
}

/// The characters of `s` that end up in some term: all but the quote
/// characters and the white space outside quotes.
pub open spec fn kept_chars(s: Seq<char>) -> Seq<char>
    decreases s.len(),
{
    if s.len() == 0 {
        Seq::empty()
    } else {
        let p = s.drop_last();
        let c = s.last();
        if c == '"' || (is_white_space(c) && !inside_quotes(p)) {
            kept_chars(p)
        } else {
            kept_chars(p).push(c)
        }
    }
}

proof fn lemma_scan_invariant(s: Seq<char>)
    ensures
        ({
            let st = tokenizer_scan(s);
            &&& st.in_quotes == inside_quotes(s)
            &&& st.terms.flatten() + st.current == kept_chars(s)
            &&& forall|i: int| 0 <= i < st.terms.len() ==> #[trigger] st.terms[i].len() > 0
            &&& forall|i: int, j: int|
                0 <= i < st.terms.len() && 0 <= j < st.terms[i].len() ==> #[trigger] st.terms[i][j]
                    != '"'
            &&& forall|j: int| 0 <= j < st.current.len() ==> #[trigger] st.current[j] != '"'
            &&& (forall|k: int| 0 <= k < s.len() ==> #[trigger] s[k] != '"') ==> {
                &&& forall|i: int, j: int|
                    0 <= i < st.terms.len() && 0 <= j < st.terms[i].len() ==> !is_white_space(
                        #[trigger] st.terms[i][j],
                    )
                &&& forall|j: int| 0 <= j < st.current.len() ==> !is_white_space(#[trigger] st.current[j])
            }
        }),
    decreases s.len(),
{
    if s.len() > 0 {
        let p = s.drop_last();
        let c = s.last();
        lemma_scan_invariant(p);
        let sp = tokenizer_scan(p);
        let st = tokenizer_scan(s);
        if (forall|k: int| 0 <= k < s.len() ==> #[trigger] s[k] != '"') {
            assert forall|k: int| 0 <= k < p.len() implies #[trigger] p[k] != '"' by {
                assert(p[k] == s[k]);
            }
        }
        if c == '"' {
        } else if is_white_space(c) && !sp.in_quotes {
            if sp.current.len() > 0 {
                sp.terms.lemma_flatten_push(sp.current);
                assert(st.terms.flatten() + st.current =~= sp.terms.flatten() + sp.current);
                assert forall|i: int, j: int|
                    0 <= i < st.terms.len() && 0 <= j < st.terms[i].len() implies #[trigger] st.terms[i][j]
                    != '"' by {
                    if i < sp.terms.len() {
                        assert(st.terms[i] == sp.terms[i]);
                    }
                }
                if (forall|k: int| 0 <= k < s.len() ==> #[trigger] s[k] != '"') {
                    assert forall|i: int, j: int|
                        0 <= i < st.terms.len() && 0 <= j < st.terms[i].len() implies !is_white_space(
                        #[trigger] st.terms[i][j],
                    ) by {
                        if i < sp.terms.len() {
                            assert(st.terms[i] == sp.terms[i]);
                        }
                    }
                }
            }
        } else {
            assert(st.terms.flatten() + st.current =~= (sp.terms.flatten() + sp.current).push(c));
            if (forall|k: int| 0 <= k < s.len() ==> #[trigger] s[k] != '"') {
                assert(!sp.in_quotes) by {
                    lemma_no_quotes_count(p);
                }
            }
        }
    }
}

proof fn lemma_no_quotes_count(s: Seq<char>)
    requires
        forall|k: int| 0 <= k < s.len() ==> #[trigger] s[k] != '"',
    ensures
        quote_count(s) == 0,
    decreases s.len(),
{
    if s.len() > 0 {
        let p = s.drop_last();
        assert forall|k: int| 0 <= k < p.len() implies #[trigger] p[k] != '"' by {
            assert(p[k] == s[k]);
        }
        lemma_no_quotes_count(p);
    }
}

/// Every term of a query is non-empty and holds no `"`.
pub proof fn lemma_terms_nonempty_unquoted(s: Seq<char>)
    ensures
        forall|i: int| 0 <= i < tokenize(s).len() ==> #[trigger] tokenize(s)[i].len() > 0,
        forall|i: int, j: int|
            0 <= i < tokenize(s).len() && 0 <= j < tokenize(s)[i].len() ==> #[trigger] tokenize(
                s,
            )[i][j] != '"',
{
    lemma_scan_invariant(s);
    let st = tokenizer_scan(s);
    if st.current.len() > 0 {
        assert forall|i: int, j: int|
            0 <= i < tokenize(s).len() && 0 <= j < tokenize(s)[i].len() implies #[trigger] tokenize(
            s,
        )[i][j] != '"' by {
            if i < st.terms.len() {
                assert(tokenize(s)[i] == st.terms[i]);
            }
        }
    }
}

/// The terms, written one after the other, are the query without its quote
/// characters and without the white space that stands outside quotes.
pub proof fn lemma_terms_concat(s: Seq<char>)
    ensures
        tokenize(s).flatten() == kept_chars(s),
{
    lemma_scan_invariant(s);
    let st = tokenizer_scan(s);
    if st.current.len() > 0 {
        st.terms.lemma_flatten_push(st.current);
    } else {
        assert(st.terms.flatten() + st.current =~= st.terms.flatten());
    }
}

/// In a query without quotes, no term holds white space.
pub proof fn lemma_unquoted_terms_have_no_space(s: Seq<char>)
    requires
        forall|k: int| 0 <= k < s.len() ==> #[trigger] s[k] != '"',
    ensures
        forall|i: int, j: int|
            0 <= i < tokenize(s).len() && 0 <= j < tokenize(s)[i].len() ==> !is_white_space(
                #[trigger] tokenize(s)[i][j],
            ),
{
    lemma_scan_invariant(s);
    let st = tokenizer_scan(s);
    if st.current.len() > 0 {
        assert forall|i: int, j: int|
            0 <= i < tokenize(s).len() && 0 <= j < tokenize(s)[i].len() implies !is_white_space(
            #[trigger] tokenize(s)[i][j],
        ) by {
            if i < st.terms.len() {
                assert(tokenize(s)[i] == st.terms[i]);
            }
        }
    }
}

// ---------------------------------------------------------------------------
// The attributes that a query can name
/// The five attributes that link an item to many names through a link table.
#[derive(Clone, Copy, PartialEq, Eq, Structural, Debug)]
pub enum Relation {
    Tag,
    Artist,
    Group,
    Series,
    Character,
}

/// The table that holds the names of a relation.
pub open spec fn master_table(r: Relation) -> Seq<char> {
    match r {
        Relation::Tag => "tags"@,
        Relation::Artist => "artists"@,
        Relation::Group => "groups"@,
        Relation::Series => "series"@,
        Relation::Character => "characters"@,
    }
}

/// The table that links items to the names of a relation.
pub open spec fn link_table(r: Relation) -> Seq<char> {
    match r {
        Relation::Tag => "item_tags"@,
        Relation::Artist => "item_artists"@,
        Relation::Group => "item_groups"@,
        Relation::Series => "item_series"@,
        Relation::Character => "item_characters"@,
    }
}

/// The column of the link table that refers to the name.
pub open spec fn key_column(r: Relation) -> Seq<char> {
    match r {
        Relation::Tag => "tag_id"@,
        Relation::Artist => "artist_id"@,
        Relation::Group => "group_id"@,
        Relation::Series => "series_id"@,
        Relation::Character => "character_id"@,
    }
}

impl Relation {
    /// The table that holds the names of this relation.
    pub fn master_table(&self) -> (r: &'static str)
        ensures
            r@ == master_table(*self),
    {
        match self {
            Relation::Tag => "tags",
            Relation::Artist => "artists",
            Relation::Group => "groups",
            Relation::Series => "series",
            Relation::Character => "characters",
        }
    }

    /// The table that links items to the names of this relation.
    pub fn link_table(&self) -> (r: &'static str)
        ensures
            r@ == link_table(*self),
    {
        match self {
            Relation::Tag => "item_tags",
            Relation::Artist => "item_artists",
            Relation::Group => "item_groups",
            Relation::Series => "item_series",
            Relation::Character => "item_characters",
        }
    }

    /// The column of the link table that refers to the name.
    pub fn key_column(&self) -> (r: &'static str)
        ensures
            r@ == key_column(*self),
    {
        match self {
            Relation::Tag => "tag_id",
            Relation::Artist => "artist_id",
            Relation::Group => "group_id",
            Relation::Series => "series_id",
            Relation::Character => "character_id",
        }
    }
}

/// What a `prefix:` in a search term filters on.
#[derive(Clone, Copy, PartialEq, Eq, Structural, Debug)]
pub enum Filter {
    Related(Relation),
    Language,
    Type,
}

/// The filter that a lower-cased prefix names, if any.
pub open spec fn filter_of(prefix: Seq<char>) -> Option<Filter> {
    if prefix == "tag"@ {
        Some(Filter::Related(Relation::Tag))
    } else if prefix == "artist"@ {
        Some(Filter::Related(Relation::Artist))
    } else if prefix == "group"@ {
        Some(Filter::Related(Relation::Group))
    } else if prefix == "series"@ {
        Some(Filter::Related(Relation::Series))
    } else if prefix == "character"@ {
        Some(Filter::Related(Relation::Character))
    } else if prefix == "language"@ {
        Some(Filter::Language)
    } else if prefix == "type"@ {
        Some(Filter::Type)
    } else {
        None
    }
}

/// The filter that a lower-cased prefix names, if any.
pub fn filter_for_prefix(prefix: &Vec<char>) -> (r: Option<Filter>)
    ensures
        r == filter_of(prefix@),
{
    if chars_eq_str(prefix, "tag") {
        Some(Filter::Related(Relation::Tag))
    } else if chars_eq_str(prefix, "artist") {
        Some(Filter::Related(Relation::Artist))
    } else if chars_eq_str(prefix, "group") {
        Some(Filter::Related(Relation::Group))
    } else if chars_eq_str(prefix, "series") {
        Some(Filter::Related(Relation::Series))
    } else if chars_eq_str(prefix, "character") {
        Some(Filter::Related(Relation::Character))
    } else if chars_eq_str(prefix, "language") {
        Some(Filter::Language)
    } else if chars_eq_str(prefix, "type") {
        Some(Filter::Type)
    } else {
        None
    }
}

// ---------------------------------------------------------------------------
// Escaping for LIKE
/// A character as it stands in a LIKE pattern with `\` as the escape
/// character: `\`, `%` and `_` get a `\` in front.
pub open spec fn escape_like_char(c: char) -> Seq<char> {
    if c == '\\' || c == '%' || c == '_' {
        seq!['\\', c]
    } else {
        seq![c]
    }
}

/// `s` with every `\`, `%` and `_` escaped by a `\`.
pub open spec fn escape_like(s: Seq<char>) -> Seq<char>
    decreases s.len(),
{
    if s.len() == 0 {
        Seq::empty()
    } else {
        escape_like(s.drop_last()) + escape_like_char(s.last())
    }
}

/// The text that a LIKE pattern with escape character `\` matches literally,
/// or `None` where the pattern holds a wildcard or a dangling `\`.
pub open spec fn like_literal(p: Seq<char>) -> Option<Seq<char>>
    decreases p.len(),
{
    if p.len() == 0 {
        Some(Seq::empty())
    } else if p[0] == '\\' {
        if p.len() < 2 {
            None
        } else {
            match like_literal(p.skip(2)) {
                Some(rest) => Some(seq![p[1]] + rest),
                None => None,
            }
        }
    } else if p[0] == '%' || p[0] == '_' {
        None
    } else {
        match like_literal(p.skip(1)) {
            Some(rest) => Some(seq![p[0]] + rest),
            None => None,
        }
    }
}

proof fn lemma_escape_like_append(a: Seq<char>, b: Seq<char>)
    ensures
        escape_like(a + b) == escape_like(a) + escape_like(b),
    decreases b.len(),
{
    if b.len() == 0 {
        assert(a + b =~= a);
    } else {
        lemma_escape_like_append(a, b.drop_last());
        assert((a + b).drop_last() =~= a + b.drop_last());
        assert((a + b).last() == b.last());
    }
}

/// An escaped text, read back as a LIKE pattern, matches exactly the text:
/// no character of it acts as a wildcard.
pub proof fn lemma_escape_like_literal(s: Seq<char>)
    ensures
        like_literal(escape_like(s)) == Some(s),
    decreases s.len(),
{
    if s.len() == 0 {
    } else {
        let c = s[0];
        let rest = s.drop_first();
        assert(s =~= seq![c] + rest);
        lemma_escape_like_append(seq![c], rest);
        assert(seq![c].drop_last() =~= Seq::<char>::empty());
        assert(escape_like(Seq::<char>::empty()) == Seq::<char>::empty());
        assert(escape_like(seq![c]) =~= escape_like_char(c));
        lemma_escape_like_literal(rest);
        let e = escape_like(s);
        if c == '\\' || c == '%' || c == '_' {
            assert(e.skip(2) =~= escape_like(rest));
        } else {
            assert(e.skip(1) =~= escape_like(rest));
        }
    }
}

/// `s` with every `\`, `%` and `_` escaped by a `\`.
pub fn escape_like_chars(s: &Vec<char>) -> (r: Vec<char>)
    ensures
        r@ == escape_like(s@),
{
    let mut r: Vec<char> = Vec::new();
    let mut i: usize = 0;
    while i < s.len()
        invariant
            i <= s.len(),
            r@ == escape_like(s@.take(i as int)),
        decreases s.len() - i,
    {
        let c = s[i];
        if c == '\\' || c == '%' || c == '_' {
            r.push('\\');
        }
        r.push(c);
        proof {
            assert(s@.take(i + 1).drop_last() =~= s@.take(i as int));
            assert(r@ =~= escape_like(s@.take(i + 1)));
        }
        i = i + 1;
    }
    assert(s@.take(s.len() as int) =~= s@);
    r
}

// ---------------------------------------------------------------------------
// Compiling a query
/// The condition on the link table of `r`: the item has (or, when
/// `exclude`, lacks) a name bound to the parameter.
pub open spec fn relation_condition(r: Relation, exclude: bool) -> Seq<char> {
    " AND "@ + (if exclude {
        "NOT EXISTS"@
    } else {
        "EXISTS"@
    }) + " (SELECT 1 FROM "@ + link_table(r) + " rel JOIN "@ + master_table(r) + " m ON rel."@
        + key_column(r) + " = m.id WHERE rel.item_id = i.id AND m.name = ?)"@
}

/// The condition on the item's language.
pub open spec fn language_condition(exclude: bool) -> Seq<char> {
    if exclude {
        " AND (i.language_id IS NULL OR i.language_id NOT IN (SELECT id FROM languages WHERE name = ?))"@
    } else {
        " AND i.language_id IN (SELECT id FROM languages WHERE name = ?)"@
    }
}

/// The condition on the item's type.
pub open spec fn type_condition(exclude: bool) -> Seq<char> {
    if exclude {
        " AND (i.type_id IS NULL OR i.type_id NOT IN (SELECT id FROM types WHERE name = ?))"@
    } else {
        " AND i.type_id IN (SELECT id FROM types WHERE name = ?)"@
    }
}

/// The condition on the item's title.
pub open spec fn title_condition(exclude: bool) -> Seq<char> {
    " AND i.title "@ + (if exclude {
        "NOT LIKE"@
    } else {
        "LIKE"@
    }) + " ? ESCAPE '\\'"@
}

/// The LIKE pattern that matches titles containing `t`.
pub open spec fn like_pattern(t: Seq<char>) -> Seq<char> {
    "%"@ + escape_like(t) + "%"@
}

/// The condition and parameter that a term contributes, or `None` for a term
/// that is empty once a leading `-` is taken off. A leading `-` excludes; a
/// known `prefix:` (any case) filters on that attribute with the text after
/// the first `:`; any other term is searched for in titles.
pub open spec fn term_condition(term: Seq<char>) -> Option<(Seq<char>, Seq<char>)> {
    let exclude = term.len() > 0 && term[0] == '-';
    let actual = if exclude {
        term.drop_first()
    } else {
        term
    };
    if actual.len() == 0 {
        None
    } else {
        match split_once(actual, ':') {
            Some((prefix, value)) => match filter_of(lowercase(prefix)) {
                Some(Filter::Related(r)) => Some((relation_condition(r, exclude), value)),
                Some(Filter::Language) => Some((language_condition(exclude), value)),
                Some(Filter::Type) => Some((type_condition(exclude), value)),
                None => Some((title_condition(exclude), like_pattern(actual))),
            },
            None => Some((title_condition(exclude), like_pattern(actual))),
        }
    }
}

/// The conditions and parameters of the terms, in order.
pub open spec fn search_conditions(terms: Seq<Seq<char>>) -> Seq<(Seq<char>, Seq<char>)>
    decreases terms.len(),
{
    if terms.len() == 0 {
        Seq::empty()
    } else {
        let before = search_conditions(terms.drop_last());
        match term_condition(terms.last()) {
            Some(c) => before.push(c),
            None => before,
        }
    }
}

/// The head of every search statement.
pub open spec fn search_head() -> Seq<char> {
    "SELECT DISTINCT i.path FROM items i WHERE 1=1"@
}

/// The tail of every search statement.
pub open spec fn search_tail() -> Seq<char> {
    " ORDER BY i.id DESC"@
}

/// The SQL text of the search for `query`.
pub open spec fn search_sql(query: Seq<char>) -> Seq<char> {
    search_head() + search_conditions(tokenize(query)).map_values(
        |c: (Seq<char>, Seq<char>)| c.0,
    ).flatten() + search_tail()
}

/// The parameters of the search for `query`, in the order of their
/// placeholders.
pub open spec fn search_params(query: Seq<char>) -> Seq<Seq<char>> {
    search_conditions(tokenize(query)).map_values(|c: (Seq<char>, Seq<char>)| c.1)
}

/// A compiled search: SQL text with `?` placeholders, and their values.
pub struct SearchQuery {
    pub sql: String,
    pub params: Vec<String>,
}

fn push_relation_condition(out: &mut Vec<char>, r: Relation, exclude: bool)
    ensures
        final(out)@ == old(out)@ + relation_condition(r, exclude),
{
    push_str(out, " AND ");
    if exclude {
        push_str(out, "NOT EXISTS");
    } else {
        push_str(out, "EXISTS");
    }
    push_str(out, " (SELECT 1 FROM ");
    push_str(out, r.link_table());
    push_str(out, " rel JOIN ");
    push_str(out, r.master_table());
    push_str(out, " m ON rel.");
    push_str(out, r.key_column());
    push_str(out, " = m.id WHERE rel.item_id = i.id AND m.name = ?)");
    assert(final(out)@ =~= old(out)@ + relation_condition(r, exclude));
}

fn title_condition_exec(exclude: bool) -> (r: Vec<char>)
    ensures
        r@ == title_condition(exclude),
{
    let mut out: Vec<char> = Vec::new();
    push_str(&mut out, " AND i.title ");
    if exclude {
        push_str(&mut out, "NOT LIKE");
    } else {
        push_str(&mut out, "LIKE");
    }
    push_str(&mut out, " ? ESCAPE '\\'");
    assert(out@ =~= title_condition(exclude));
    out
}

fn like_pattern_exec(t: &Vec<char>) -> (r: Vec<char>)
    ensures
        r@ == like_pattern(t@),
{
    let mut out: Vec<char> = Vec::new();
    push_str(&mut out, "%");
    let e = escape_like_chars(t);
    push_all(&mut out, &e);
    push_str(&mut out, "%");
    assert(out@ =~= like_pattern(t@));
    out
}

/// The condition and parameter that a term contributes, if any.
pub fn term_condition_exec(term: &Vec<char>) -> (r: Option<(Vec<char>, Vec<char>)>)
    ensures
        match r {
            Some((c, p)) => term_condition(term@) == Some((c@, p@)),
            None => term_condition(term@) is None,
        },
{
    let exclude = term.len() > 0 && term[0] == '-';
    let actual = if exclude {
        sub_vec(term, 1, term.len())
    } else {
        sub_vec(term, 0, term.len())
    };
    assert(actual@ == (if exclude {
        term@.drop_first()
    } else {
        term@
    }));
    if actual.len() == 0 {
        return None;
    }
    match split_once_chars(&actual, ':') {
        Some((prefix, value)) => {
            let prefix_string = string_from_chars(prefix.as_slice());
            let lower = to_lowercase(prefix_string.as_str());
            let lower_chars = chars_of(lower.as_str());
            match filter_for_prefix(&lower_chars) {
                Some(Filter::Related(r)) => {
                    let mut c: Vec<char> = Vec::new();
                    push_relation_condition(&mut c, r, exclude);
                    assert(c@ =~= relation_condition(r, exclude));
                    Some((c, value))
                },
                Some(Filter::Language) => {
                    let c = if exclude {
                        chars_of(
                            " AND (i.language_id IS NULL OR i.language_id NOT IN (SELECT id FROM languages WHERE name = ?))",
                        )
                    } else {
                        chars_of(" AND i.language_id IN (SELECT id FROM languages WHERE name = ?)")
                    };
                    Some((c, value))
                },
                Some(Filter::Type) => {
                    let c = if exclude {
                        chars_of(
                            " AND (i.type_id IS NULL OR i.type_id NOT IN (SELECT id FROM types WHERE name = ?))",
                        )
                    } else {
                        chars_of(" AND i.type_id IN (SELECT id FROM types WHERE name = ?)")
                    };
                    Some((c, value))
                },
                None => Some((title_condition_exec(exclude), like_pattern_exec(&actual))),
            }
        },
        None => Some((title_condition_exec(exclude), like_pattern_exec(&actual))),
    }
}

/// Compiles a search query into one SQL statement over the items, with its
/// parameters. Each term adds one condition, all of which must hold:
/// `prefix:value` terms for tags, artists, groups, series, characters,
/// language and type (prefix in any case) match the attribute's name exactly;
/// any other term is looked for in titles, with `%`, `_` and `\` taken
/// literally. A leading `-` turns a condition into an exclusion. The items
/// come newest (highest id) first.
pub fn build_search_query(query_str: &str) -> (r: SearchQuery)
    ensures
        r.sql@ == search_sql(query_str@),
        string_views(r.params@) == search_params(query_str@),
{
    let terms = tokenize_query(query_str);
    let ghost tv = tokenize(query_str@);
    let mut sql = chars_of("SELECT DISTINCT i.path FROM items i WHERE 1=1");
    let mut params: Vec<String> = Vec::new();
    let mut i: usize = 0;
    while i < terms.len()
        invariant
            i <= terms.len(),
            tv == string_views(terms@),
            sql@ == search_head() + search_conditions(tv.take(i as int)).map_values(
                |c: (Seq<char>, Seq<char>)| c.0,
            ).flatten(),
            string_views(params@) == search_conditions(tv.take(i as int)).map_values(
                |c: (Seq<char>, Seq<char>)| c.1,
            ),
        decreases terms.len() - i,
    {
        let term = chars_of(terms[i].as_str());
        let ghost before = search_conditions(tv.take(i as int));
        proof {
            assert(tv.take(i + 1).drop_last() =~= tv.take(i as int));
            assert(tv.take(i + 1).last() == term@);
        }
        match term_condition_exec(&term) {
            Some((c, p)) => {
                push_all(&mut sql, &c);
                let ps = string_from_chars(p.as_slice());
                let ghost old_params = params@;
                params.push(ps);
                proof {
                    let now = search_conditions(tv.take(i + 1));
                    assert(now == before.push((c@, p@)));
                    let f0 = |c: (Seq<char>, Seq<char>)| c.0;
                    assert(now.map_values(f0) =~= before.map_values(f0).push(c@));
                    before.map_values(f0).lemma_flatten_push(c@);
                    let f1 = |c: (Seq<char>, Seq<char>)| c.1;
                    assert(string_views(params@) =~= string_views(old_params).push(p@));
                    assert(now.map_values(f1) =~= before.map_values(f1).push(p@));
                }
            },
            None => {},
        }
        i = i + 1;
    }
    assert(tv.take(terms.len() as int) =~= tv);
    push_str(&mut sql, " ORDER BY i.id DESC");
    let sql_string = string_from_chars(sql.as_slice());
    SearchQuery { sql: sql_string, params }
}

/// Whether `f` is one of the fixed condition texts: the text of a search is
/// made of these alone, so nothing that a user types reaches it.
pub open spec fn is_fixed_condition(f: Seq<char>) -> bool {
    ||| exists|r: Relation, x: bool| f == #[trigger] relation_condition(r, x)
    ||| exists|x: bool| f == #[trigger] language_condition(x)
    ||| exists|x: bool| f == #[trigger] type_condition(x)
    ||| exists|x: bool| f == #[trigger] title_condition(x)
}

proof fn lemma_conditions_fixed(terms: Seq<Seq<char>>)
    ensures
        forall|k: int|
            0 <= k < search_conditions(terms).len() ==> is_fixed_condition(
                #[trigger] search_conditions(terms)[k].0,
            ),
    decreases terms.len(),
{
    if terms.len() > 0 {
        lemma_conditions_fixed(terms.drop_last());
        let before = search_conditions(terms.drop_last());
        let t = terms.last();
        match term_condition(t) {
            Some(c) => {
                let exclude = t.len() > 0 && t[0] == '-';
                assert(is_fixed_condition(c.0)) by {
                    let actual = if exclude {
                        t.drop_first()
                    } else {
                        t
                    };
                    match split_once(actual, ':') {
                        Some((prefix, value)) => match filter_of(lowercase(prefix)) {
                            Some(Filter::Related(r)) => {
                                assert(c.0 == relation_condition(r, exclude));
                            },
                            Some(Filter::Language) => {
                                assert(c.0 == language_condition(exclude));
                            },
                            Some(Filter::Type) => {
                                assert(c.0 == type_condition(exclude));
                            },
                            None => {
                                assert(c.0 == title_condition(exclude));
                            },
                        },
                        None => {
                            assert(c.0 == title_condition(exclude));
                        },
                    }
                }
                assert forall|k: int|
                    0 <= k < search_conditions(terms).len() implies is_fixed_condition(
                    #[trigger] search_conditions(terms)[k].0,
                ) by {
                    if k < before.len() {
                        assert(search_conditions(terms)[k] == before[k]);
                    }
                }
            },
            None => {},
        }
    }
}

/// The SQL text of a search is the fixed head, one fixed condition per
/// parameter, and the fixed tail: the query's text reaches the statement
/// only as parameters.
pub proof fn lemma_search_sql_is_fixed(query: Seq<char>)
    ensures
        ({
            let conds = search_conditions(tokenize(query));
            &&& search_sql(query) == search_head() + conds.map_values(
                |c: (Seq<char>, Seq<char>)| c.0,
            ).flatten() + search_tail()
            &&& conds.len() == search_params(query).len()
            &&& forall|k: int| 0 <= k < conds.len() ==> is_fixed_condition(#[trigger] conds[k].0)
        }),
{
    lemma_conditions_fixed(tokenize(query));
}


// ---------------------------------------------------------------------------
// What each kind of term asks for
/// The lower-case prefix that names a relation in a search term.
pub open spec fn relation_prefix(r: Relation) -> Seq<char> {
    match r {
        Relation::Tag => "tag"@,
        Relation::Artist => "artist"@,
        Relation::Group => "group"@,
        Relation::Series => "series"@,
        Relation::Character => "character"@,
    }
}

proof fn lemma_prefix_split(p: Seq<char>, v: Seq<char>)
    requires
        !p.contains(':'),
    ensures
        split_once(p + seq![':'] + v, ':') == Some((p, v)),
{
    let t = p + seq![':'] + v;
    assert forall|j: int| 0 <= j < p.len() implies #[trigger] t[j] != ':' by {
        assert(t[j] == p[j]);
    }
    crate::text::lemma_find_char_at(t, ':', p.len() as int);
    assert(t.take(p.len() as int) =~= p);
    assert(t.skip(p.len() as int + 1) =~= v);
}

proof fn lemma_dash_drop(t: Seq<char>)
    ensures
        (seq!['-'] + t).len() > 0,
        (seq!['-'] + t)[0] == '-',
        (seq!['-'] + t).drop_first() == t,
{
    assert((seq!['-'] + t).drop_first() =~= t);
}


proof fn lemma_filter_names(r: Relation)
    ensures
        filter_of(relation_prefix(r)) == Some(Filter::Related(r)),
        filter_of("language"@) == Some(Filter::Language),
        filter_of("type"@) == Some(Filter::Type),
{
    reveal_strlit("tag");
    reveal_strlit("artist");
    reveal_strlit("group");
    reveal_strlit("series");
    reveal_strlit("character");
    reveal_strlit("language");
    reveal_strlit("type");
    assert("tag"@.len() == 3);
    assert("artist"@.len() == 6);
    assert("group"@.len() == 5);
    assert("series"@.len() == 6);
    assert("character"@.len() == 9);
    assert("language"@.len() == 8);
    assert("type"@.len() == 4);
    assert("artist"@[0] != "series"@[0]);
    assert("tag"@[0] != "type"@[0] || "tag"@.len() != "type"@.len());
}

proof fn lemma_relation_sql(r: Relation)
    ensures
        relation_condition(r, false) == " AND EXISTS (SELECT 1 FROM "@ + link_table(r)
            + " rel JOIN "@ + master_table(r) + " m ON rel."@ + key_column(r)
            + " = m.id WHERE rel.item_id = i.id AND m.name = ?)"@,
        relation_condition(r, true) == " AND NOT EXISTS (SELECT 1 FROM "@ + link_table(r)
            + " rel JOIN "@ + master_table(r) + " m ON rel."@ + key_column(r)
            + " = m.id WHERE rel.item_id = i.id AND m.name = ?)"@,
{
    reveal_strlit(" AND ");
    reveal_strlit("EXISTS");
    reveal_strlit("NOT EXISTS");
    reveal_strlit(" (SELECT 1 FROM ");
    reveal_strlit(" AND EXISTS (SELECT 1 FROM ");
    reveal_strlit(" AND NOT EXISTS (SELECT 1 FROM ");
    let a = " rel JOIN "@;
    let b = " m ON rel."@;
    let c = " = m.id WHERE rel.item_id = i.id AND m.name = ?)"@;
    let x = link_table(r);
    let y = master_table(r);
    let z = key_column(r);
    assert(" AND "@ + "EXISTS"@ + " (SELECT 1 FROM "@ =~= " AND EXISTS (SELECT 1 FROM "@);
    assert(" AND "@ + "NOT EXISTS"@ + " (SELECT 1 FROM "@ =~= " AND NOT EXISTS (SELECT 1 FROM "@);
    assert(" AND "@ + "EXISTS"@ + " (SELECT 1 FROM "@ + x + a + y + b + z + c =~= " AND EXISTS (SELECT 1 FROM "@ + x + a + y + b + z + c);
    assert(" AND "@ + "NOT EXISTS"@ + " (SELECT 1 FROM "@ + x + a + y + b + z + c =~= " AND NOT EXISTS (SELECT 1 FROM "@ + x + a + y + b + z + c);
}

/// A term `prefix:value` whose prefix names a relation (in any case) keeps
/// the items that have a link to the name `value` in that relation's link
/// table; the same term after a `-` keeps the items that have no such link.
/// Either way the value, unchanged, is the statement's parameter.
pub proof fn lemma_relation_term(r: Relation, p: Seq<char>, v: Seq<char>)
    requires
        lowercase(p) == relation_prefix(r),
        p.len() > 0,
        p[0] != '-',
        !p.contains(':'),
    ensures
        term_condition(p + seq![':'] + v) == Some(
            (
                " AND EXISTS (SELECT 1 FROM "@ + link_table(r) + " rel JOIN "@ + master_table(r)
                    + " m ON rel."@ + key_column(r)
                    + " = m.id WHERE rel.item_id = i.id AND m.name = ?)"@,
                v,
            ),
        ),
        term_condition(seq!['-'] + (p + seq![':'] + v)) == Some(
            (
                " AND NOT EXISTS (SELECT 1 FROM "@ + link_table(r) + " rel JOIN "@ + master_table(
                    r,
                ) + " m ON rel."@ + key_column(r)
                    + " = m.id WHERE rel.item_id = i.id AND m.name = ?)"@,
                v,
            ),
        ),
{
    let t = p + seq![':'] + v;
    lemma_prefix_split(p, v);
    lemma_dash_drop(t);
    assert(t[0] == p[0]);
    lemma_filter_names(r);
    lemma_relation_sql(r);
}

/// A term `language:value` (prefix in any case) keeps the items whose
/// language is named `value`; after a `-` it keeps the items with no language
/// or another one.
pub proof fn lemma_language_term(p: Seq<char>, v: Seq<char>)
    requires
        lowercase(p) == "language"@,
        p.len() > 0,
        p[0] != '-',
        !p.contains(':'),
    ensures
        term_condition(p + seq![':'] + v) == Some(
            (" AND i.language_id IN (SELECT id FROM languages WHERE name = ?)"@, v),
        ),
        term_condition(seq!['-'] + (p + seq![':'] + v)) == Some(
            (
                " AND (i.language_id IS NULL OR i.language_id NOT IN (SELECT id FROM languages WHERE name = ?))"@,
                v,
            ),
        ),
{
    let t = p + seq![':'] + v;
    lemma_prefix_split(p, v);
    lemma_dash_drop(t);
    assert(t[0] == p[0]);
    lemma_filter_names(Relation::Tag);
}

/// A term `type:value` (prefix in any case) keeps the items whose type is
/// named `value`; after a `-` it keeps the items with no type or another one.
pub proof fn lemma_type_term(p: Seq<char>, v: Seq<char>)
    requires
        lowercase(p) == "type"@,
        p.len() > 0,
        p[0] != '-',
        !p.contains(':'),
    ensures
        term_condition(p + seq![':'] + v) == Some(
            (" AND i.type_id IN (SELECT id FROM types WHERE name = ?)"@, v),
        ),
        term_condition(seq!['-'] + (p + seq![':'] + v)) == Some(
            (
                " AND (i.type_id IS NULL OR i.type_id NOT IN (SELECT id FROM types WHERE name = ?))"@,
                v,
            ),
        ),
{
    let t = p + seq![':'] + v;
    lemma_prefix_split(p, v);
    lemma_dash_drop(t);
    assert(t[0] == p[0]);
    lemma_filter_names(Relation::Tag);
}

/// A term without `:` keeps the items whose title contains it literally
/// (with `%`, `_` and `\` escaped); after a `-` it keeps the items whose
/// title does not contain it.
pub proof fn lemma_title_term(t: Seq<char>)
    requires
        t.len() > 0,
        t[0] != '-',
        !t.contains(':'),
    ensures
        term_condition(t) == Some(
            (" AND i.title LIKE ? ESCAPE '\\'"@, "%"@ + escape_like(t) + "%"@),
        ),
        term_condition(seq!['-'] + t) == Some(
            (" AND i.title NOT LIKE ? ESCAPE '\\'"@, "%"@ + escape_like(t) + "%"@),
        ),
{
    reveal_strlit(" AND i.title ");
    reveal_strlit("LIKE");
    reveal_strlit("NOT LIKE");
    reveal_strlit(" ? ESCAPE '\\'");
    reveal_strlit(" AND i.title LIKE ? ESCAPE '\\'");
    reveal_strlit(" AND i.title NOT LIKE ? ESCAPE '\\'");
    assert forall|j: int| 0 <= j < t.len() implies #[trigger] t[j] != ':' by {
        assert(t.contains(t[j]));
    }
    crate::text::lemma_find_char_at(t, ':', t.len() as int);
    lemma_dash_drop(t);
    assert(title_condition(false) =~= " AND i.title LIKE ? ESCAPE '\\'"@);
    assert(title_condition(true) =~= " AND i.title NOT LIKE ? ESCAPE '\\'"@);
}

} // verus!
