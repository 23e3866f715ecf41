//! Gallery metadata: the `Info` record and the `info.txt` format it is read
//! from. Each line of `info.txt` is `key: value`; list values are separated
//! by commas; `N/A` stands for a missing value.

use vstd::prelude::*;
use crate::decimal::{decimal, lemma_nat_digits, parse_i64, parse_i64_chars, write_i64};
use crate::query::string_views;
use crate::text::{
    chars_eq_str, chars_of, is_white_space, lemma_find_char_at, push_str, split_once,
    split_once_chars, string_from_chars, trim, trim_chars,
};

verus! {

broadcast use vstd::seq_lib::group_seq_properties;

/// The metadata of one gallery.
#[derive(Debug)]
pub struct Info {
    pub gallery_id: Option<i64>,
    pub title: String,
    pub artists: Vec<String>,
    pub groups: Vec<String>,
    pub gallery_type: String,
    pub series: Vec<String>,
    pub characters: Vec<String>,
    pub tags: Vec<String>,
    pub language: String,
}

/// The metadata of one gallery, with its texts as character sequences.
#[verifier::ext_equal]
pub struct InfoView {
    pub gallery_id: Option<i64>,
    pub title: Seq<char>,
    pub artists: Seq<Seq<char>>,
    pub groups: Seq<Seq<char>>,
    pub gallery_type: Seq<char>,
    pub series: Seq<Seq<char>>,
    pub characters: Seq<Seq<char>>,
    pub tags: Seq<Seq<char>>,
    pub language: Seq<char>,
}

impl View for Info {
    type V = InfoView;

    open spec fn view(&self) -> InfoView {
        InfoView {
            gallery_id: self.gallery_id,
            title: self.title@,
            artists: string_views(self.artists@),
            groups: string_views(self.groups@),
            gallery_type: self.gallery_type@,
            series: string_views(self.series@),
            characters: string_views(self.characters@),
            tags: string_views(self.tags@),
            language: self.language@,
        }
    }
}

/// The metadata with nothing known: no id, empty texts and lists.
pub open spec fn empty_info() -> InfoView {
    InfoView {
        gallery_id: None,
        title: Seq::empty(),
        artists: Seq::empty(),
        groups: Seq::empty(),
        gallery_type: Seq::empty(),
        series: Seq::empty(),
        characters: Seq::empty(),
        tags: Seq::empty(),
        language: Seq::empty(),
    }
}

impl Default for Info {
    fn default() -> (r: Self)
        ensures
            r@ == empty_info(),
    {
        let r = Info {
            gallery_id: None,
            title: String::new(),
            artists: Vec::new(),
            groups: Vec::new(),
            gallery_type: String::new(),
            series: Vec::new(),
            characters: Vec::new(),
            tags: Vec::new(),
            language: String::new(),
        };
        assert(r@ =~= empty_info());
        r
    }
}

// ---------------------------------------------------------------------------
// Comma-separated lists
/// A comma-separated list being read: the items so far and the text since
/// the last comma.
pub open spec fn csv_scan(s: Seq<char>) -> (Seq<Seq<char>>, Seq<char>)
    decreases s.len(),
{
    if s.len() == 0 {
        (Seq::empty(), Seq::empty())
    } else {
        let (items, cur) = csv_scan(s.drop_last());
        if s.last() == ',' {
            (push_nonempty(items, trim(cur)), Seq::empty())
        } else {
            (items, cur.push(s.last()))
        }
    }
}

/// `items` with `t` added at the end, unless `t` is empty.
pub open spec fn push_nonempty(items: Seq<Seq<char>>, t: Seq<char>) -> Seq<Seq<char>> {
    if t.len() > 0 {
        items.push(t)
    } else {
        items
    }
}

/// The items of a comma-separated list: the pieces between commas, trimmed,
/// with the empty ones left out.
pub open spec fn csv_items(s: Seq<char>) -> Seq<Seq<char>> {
    let (items, cur) = csv_scan(s);
    push_nonempty(items, trim(cur))
}

proof fn lemma_trim_avoids(s: Seq<char>, c: char)
    requires
        forall|k: int| 0 <= k < s.len() ==> #[trigger] s[k] != c,
    ensures
        forall|k: int| 0 <= k < trim(s).len() ==> #[trigger] trim(s)[k] != c,
{
    lemma_trim_start_avoids(s, c);
    lemma_trim_end_avoids(crate::text::trim_start(s), c);
}

proof fn lemma_trim_start_avoids(s: Seq<char>, c: char)
    requires
        forall|k: int| 0 <= k < s.len() ==> #[trigger] s[k] != c,
    ensures
        forall|k: int| 0 <= k < crate::text::trim_start(s).len() ==> #[trigger] crate::text::trim_start(s)[k] != c,
    decreases s.len(),
{
    if s.len() > 0 && is_white_space(s[0]) {
        let t = s.drop_first();
        assert forall|k: int| 0 <= k < t.len() implies #[trigger] t[k] != c by {
            assert(t[k] == s[k + 1]);
        }
        lemma_trim_start_avoids(t, c);
        assert(crate::text::trim_start(s) == crate::text::trim_start(t));
    } else {
        assert(crate::text::trim_start(s) == s);
    }
}

proof fn lemma_trim_end_avoids(s: Seq<char>, c: char)
    requires
        forall|k: int| 0 <= k < s.len() ==> #[trigger] s[k] != c,
    ensures
        forall|k: int| 0 <= k < crate::text::trim_end(s).len() ==> #[trigger] crate::text::trim_end(s)[k] != c,
    decreases s.len(),
{
    if s.len() > 0 && is_white_space(s.last()) {
        let t = s.drop_last();
        assert forall|k: int| 0 <= k < t.len() implies #[trigger] t[k] != c by {
            assert(t[k] == s[k]);
        }
        lemma_trim_end_avoids(t, c);
        assert(crate::text::trim_end(s) == crate::text::trim_end(t));
    } else {
        assert(crate::text::trim_end(s) == s);
    }
}

proof fn lemma_csv_scan(s: Seq<char>)
    ensures
        forall|k: int| 0 <= k < csv_scan(s).1.len() ==> #[trigger] csv_scan(s).1[k] != ',',
        forall|i: int| 0 <= i < csv_scan(s).0.len() ==> #[trigger] csv_scan(s).0[i].len() > 0,
        forall|i: int| 0 <= i < csv_scan(s).0.len() ==> trim(#[trigger] csv_scan(s).0[i]) == csv_scan(
            s,
        ).0[i],
        forall|i: int, k: int|
            0 <= i < csv_scan(s).0.len() && 0 <= k < csv_scan(s).0[i].len() ==> #[trigger] csv_scan(
                s,
            ).0[i][k] != ',',
    decreases s.len(),
{
    if s.len() > 0 {
        let p = s.drop_last();
        lemma_csv_scan(p);
        let (items, cur) = csv_scan(p);
        if s.last() == ',' {
            lemma_trim_avoids(cur, ',');
            let now = csv_scan(s).0;
            assert forall|i: int, k: int|
                0 <= i < now.len() && 0 <= k < now[i].len() implies #[trigger] now[i][k] != ',' by {
                if i < items.len() {
                    assert(now[i] == items[i]);
                } else {
                    assert(now[i] == trim(cur));
                }
            }
            assert forall|i: int| 0 <= i < now.len() implies #[trigger] now[i].len() > 0 by {
                if i < items.len() {
                    assert(now[i] == items[i]);
                }
            }
            crate::text::lemma_trim_idempotent(cur);
            assert forall|i: int| 0 <= i < now.len() implies trim(#[trigger] now[i]) == now[i] by {
                if i < items.len() {
                    assert(now[i] == items[i]);
                }
            }
        }
    }
}

/// The items of a comma-separated list are non-empty, trimmed, and hold no
/// comma.
pub proof fn lemma_csv_items(s: Seq<char>)
    ensures
        forall|i: int| 0 <= i < csv_items(s).len() ==> #[trigger] csv_items(s)[i].len() > 0,
        forall|i: int| 0 <= i < csv_items(s).len() ==> trim(#[trigger] csv_items(s)[i]) == csv_items(
            s,
        )[i],
        forall|i: int, k: int|
            0 <= i < csv_items(s).len() && 0 <= k < csv_items(s)[i].len() ==> #[trigger] csv_items(
                s,
            )[i][k] != ',',
{
    lemma_csv_scan(s);
    let (items, cur) = csv_scan(s);
    lemma_trim_avoids(cur, ',');
    crate::text::lemma_trim_idempotent(cur);
    let r = csv_items(s);
    assert forall|i: int| 0 <= i < r.len() implies trim(#[trigger] r[i]) == r[i] by {
        if i < items.len() {
            assert(r[i] == items[i]);
        }
    }
    assert forall|i: int, k: int| 0 <= i < r.len() && 0 <= k < r[i].len() implies #[trigger] r[i][k]
        != ',' by {
        if i < items.len() {
            assert(r[i] == items[i]);
        } else {
            assert(r[i] == trim(cur));
        }
    }
    assert forall|i: int| 0 <= i < r.len() implies #[trigger] r[i].len() > 0 by {
        if i < items.len() {
            assert(r[i] == items[i]);
        }
    }
}

/// The pieces of `s` between the occurrences of `c`, in order: one more
/// than there are occurrences (an empty `s` is one empty piece).
pub open spec fn split_char(s: Seq<char>, c: char) -> Seq<Seq<char>>
    decreases s.len(),
{
    if s.len() == 0 {
        seq![Seq::empty()]
    } else {
        let p = split_char(s.drop_last(), c);
        if s.last() == c {
            p.push(Seq::empty())
        } else {
            p.update(p.len() - 1, p.last().push(s.last()))
        }
    }
}

/// The pieces joined again, with `c` between each two.
pub open spec fn join_char(pieces: Seq<Seq<char>>, c: char) -> Seq<char>
    decreases pieces.len(),
{
    if pieces.len() == 0 {
        Seq::empty()
    } else if pieces.len() == 1 {
        pieces[0]
    } else {
        join_char(pieces.drop_last(), c) + seq![c] + pieces.last()
    }
}

/// `split_char` cuts `s` at every `c` and nowhere else: its pieces hold no
/// `c`, and joined with `c` they give `s` back.
pub proof fn lemma_split_char(s: Seq<char>, c: char)
    ensures
        split_char(s, c).len() == 1 + s.filter(|x: char| x == c).len(),
        forall|i: int, k: int|
            0 <= i < split_char(s, c).len() && 0 <= k < split_char(s, c)[i].len()
                ==> #[trigger] split_char(s, c)[i][k] != c,
        join_char(split_char(s, c), c) == s,
    decreases s.len(),
{
    reveal(Seq::filter);
    if s.len() > 0 {
        let t = s.drop_last();
        lemma_split_char(t, c);
        let p = split_char(t, c);
        let q = split_char(s, c);
        if s.last() == c {
            assert(q.drop_last() =~= p);
            assert(join_char(q, c) =~= join_char(p, c) + seq![c] + Seq::<char>::empty());
            assert(join_char(q, c) =~= s);
            assert forall|i: int, k: int| 0 <= i < q.len() && 0 <= k < q[i].len() implies #[trigger] q[i][k] != c by {
                assert(q[i] == p[i]);
            }
        } else {
            let x = s.last();
            assert forall|i: int, k: int| 0 <= i < q.len() && 0 <= k < q[i].len() implies #[trigger] q[i][k] != c by {
                if i < p.len() - 1 {
                    assert(q[i] == p[i]);
                } else {
                    if k < p.last().len() {
                        assert(q[i][k] == p[i][k]);
                    }
                }
            }
            if p.len() == 1 {
                assert(join_char(q, c) =~= p[0].push(x));
                assert(join_char(p, c) == p[0]);
            } else {
                assert(q.drop_last() =~= p.drop_last());
                assert(join_char(q, c) =~= join_char(p.drop_last(), c) + seq![c] + p.last().push(x));
                assert(join_char(p, c) == join_char(p.drop_last(), c) + seq![c] + p.last());
            }
            assert(join_char(q, c) =~= join_char(p, c).push(x));
            assert(s =~= t.push(x));
            assert(join_char(q, c) =~= s);
        }
    }
}

proof fn lemma_csv_scan_split(s: Seq<char>)
    ensures
        csv_scan(s).1 == split_char(s, ',').last(),
        csv_scan(s).0 == split_char(s, ',').drop_last().map_values(|p: Seq<char>| trim(p)).filter(
            |t: Seq<char>| t.len() > 0,
        ),
    decreases s.len(),
{
    reveal(Seq::filter);
    if s.len() > 0 {
        let t = s.drop_last();
        lemma_csv_scan_split(t);
        let p = split_char(t, ',');
        let q = split_char(s, ',');
        lemma_split_char(t, ',');
        if s.last() == ',' {
            assert(q.drop_last() =~= p);
            let m = p.map_values(|x: Seq<char>| trim(x));
            assert(m.drop_last() =~= p.drop_last().map_values(|x: Seq<char>| trim(x)));
        } else {
            assert(q.drop_last() =~= p.drop_last());
        }
    }
}

/// The items of a comma-separated list are exactly its pieces between
/// commas (`split_char`), each trimmed, with the empty ones left out, in
/// order: no piece is dropped and none is added.
pub proof fn lemma_csv_items_are_pieces(s: Seq<char>)
    ensures
        csv_items(s) == split_char(s, ',').map_values(|p: Seq<char>| trim(p)).filter(
            |t: Seq<char>| t.len() > 0,
        ),
{
    reveal(Seq::filter);
    lemma_csv_scan_split(s);
    lemma_split_char(s, ',');
    let q = split_char(s, ',');
    let m = q.map_values(|x: Seq<char>| trim(x));
    assert(m.drop_last() =~= q.drop_last().map_values(|x: Seq<char>| trim(x)));
}

fn push_nonempty_exec(items: &mut Vec<String>, t: &Vec<char>)
    ensures
        string_views(final(items)@) == push_nonempty(string_views(old(items)@), t@),
{
    if t.len() > 0 {
        let s = string_from_chars(t.as_slice());
        items.push(s);
        assert(string_views(items@) =~= string_views(old(items)@).push(t@));
    }
}

/// The items of a comma-separated list.
pub fn parse_csv(value: &Vec<char>) -> (r: Vec<String>)
    ensures
        string_views(r@) == csv_items(value@),
        string_views(r@) == split_char(value@, ',').map_values(|p: Seq<char>| trim(p)).filter(
            |t: Seq<char>| t.len() > 0,
        ),
{
    proof {
        lemma_csv_items_are_pieces(value@);
    }
    let mut items: Vec<String> = Vec::new();
    let mut cur: Vec<char> = Vec::new();
    let mut i: usize = 0;
    while i < value.len()
        invariant
            i <= value.len(),
            string_views(items@) == csv_scan(value@.take(i as int)).0,
            cur@ == csv_scan(value@.take(i as int)).1,
        decreases value.len() - i,
    {
        let c = value[i];
        proof {
            assert(value@.take(i + 1).drop_last() =~= value@.take(i as int));
        }
        if c == ',' {
            let t = trim_chars(&cur);
            push_nonempty_exec(&mut items, &t);
            cur = Vec::new();
        } else {
            cur.push(c);
        }
        i = i + 1;
    }
    assert(value@.take(value.len() as int) =~= value@);
    let t = trim_chars(&cur);
    push_nonempty_exec(&mut items, &t);
    items
}

// ---------------------------------------------------------------------------
// Lines
/// The key of the gallery id line.
pub open spec fn gallery_id_key() -> Seq<char> {
    "ギャラリーID"@
}

/// `info` with the field that `key` names set from `value`; unknown keys
/// change nothing.
pub open spec fn apply_field(info: InfoView, key: Seq<char>, value: Seq<char>) -> InfoView {
    if key == gallery_id_key() {
        InfoView { gallery_id: parse_i64(value), ..info }
    } else if key == "タイトル"@ {
        InfoView { title: value, ..info }
    } else if key == "作者"@ {
        InfoView { artists: csv_items(value), ..info }
    } else if key == "グループ"@ {
        InfoView { groups: csv_items(value), ..info }
    } else if key == "種類"@ {
        InfoView { gallery_type: value, ..info }
    } else if key == "シリーズ"@ {
        InfoView { series: csv_items(value), ..info }
    } else if key == "キャラクター"@ {
        InfoView { characters: csv_items(value), ..info }
    } else if key == "タグ"@ {
        InfoView { tags: csv_items(value), ..info }
    } else if key == "言語"@ {
        InfoView { language: value, ..info }
    } else {
        info
    }
}

/// `info` after reading one line: a line without `:` and a value `N/A`
/// change nothing; otherwise the trimmed key before the first `:` names the
/// field and the trimmed rest is its value.
pub open spec fn apply_line(info: InfoView, line: Seq<char>) -> InfoView {
    let l = trim(line);
    if l.len() == 0 {
        info
    } else {
        match split_once(l, ':') {
            None => info,
            Some((k, v)) => {
                let key = trim(k);
                let value = trim(v);
                if value == "N/A"@ {
                    info
                } else {
                    apply_field(info, key, value)
                }
            },
        }
    }
}

/// Reading `s` from the state `st`: the metadata so far and the text of the
/// line not yet ended.
pub open spec fn info_scan_from(st: (InfoView, Seq<char>), s: Seq<char>) -> (InfoView, Seq<char>)
    decreases s.len(),
{
    if s.len() == 0 {
        st
    } else {
        let (m, cur) = info_scan_from(st, s.drop_last());
        if s.last() == '\n' {
            (apply_line(m, cur), Seq::empty())
        } else {
            (m, cur.push(s.last()))
        }
    }
}

/// The metadata that the text of an `info.txt` file gives, line by line; a
/// later line for the same key wins.
pub open spec fn parse_info(content: Seq<char>) -> InfoView {
    let (m, cur) = info_scan_from((empty_info(), Seq::empty()), content);
    apply_line(m, cur)
}

fn apply_field_exec(info: &mut Info, key: &Vec<char>, value: &Vec<char>)
    ensures
        final(info)@ == apply_field(old(info)@, key@, value@),
{
    if chars_eq_str(key, "ギャラリーID") {
        info.gallery_id = parse_i64_chars(value);
    } else if chars_eq_str(key, "タイトル") {
        info.title = string_from_chars(value.as_slice());
    } else if chars_eq_str(key, "作者") {
        info.artists = parse_csv(value);
    } else if chars_eq_str(key, "グループ") {
        info.groups = parse_csv(value);
    } else if chars_eq_str(key, "種類") {
        info.gallery_type = string_from_chars(value.as_slice());
    } else if chars_eq_str(key, "シリーズ") {
        info.series = parse_csv(value);
    } else if chars_eq_str(key, "キャラクター") {
        info.characters = parse_csv(value);
    } else if chars_eq_str(key, "タグ") {
        info.tags = parse_csv(value);
    } else if chars_eq_str(key, "言語") {
        info.language = string_from_chars(value.as_slice());
    }
    assert(info@ =~= apply_field(old(info)@, key@, value@));
}

fn apply_line_exec(info: &mut Info, line: &Vec<char>)
    ensures
        final(info)@ == apply_line(old(info)@, line@),
{
    let l = trim_chars(line);
    if l.len() == 0 {
        return ;
    }
    match split_once_chars(&l, ':') {
        None => {},
        Some((k, v)) => {
            let key = trim_chars(&k);
            let value = trim_chars(&v);
            if !chars_eq_str(&value, "N/A") {
                apply_field_exec(info, &key, &value);
            }
        },
    }
}

/// Parses the text of an `info.txt` file into the gallery's metadata. Blank
/// lines, lines without `:`, unknown keys and `N/A` values are skipped; a
/// gallery id that is not a number leaves the id unknown.
pub fn parse_info_txt(content: &str) -> (r: Info)
    ensures
        r@ == parse_info(content@),
{
    let s = chars_of(content);
    let mut info = Info::default();
    let mut cur: Vec<char> = Vec::new();
    let mut i: usize = 0;
    while i < s.len()
        invariant
            i <= s.len(),
            s@ == content@,
            info@ == info_scan_from((empty_info(), Seq::empty()), s@.take(i as int)).0,
            cur@ == info_scan_from((empty_info(), Seq::empty()), s@.take(i as int)).1,
        decreases s.len() - i,
    {
        let c = s[i];
        proof {
            assert(s@.take(i + 1).drop_last() =~= s@.take(i as int));
        }
        if c == '\n' {
            apply_line_exec(&mut info, &cur);
            cur = Vec::new();
        } else {
            cur.push(c);
        }
        i = i + 1;
    }
    assert(s@.take(s.len() as int) =~= s@);
    apply_line_exec(&mut info, &cur);
    info
}

// ---------------------------------------------------------------------------
// Writing the gallery id back
/// The line that records `id` as a gallery's id, with its line break.
pub open spec fn gallery_id_line(id: i64) -> Seq<char> {
    "ギャラリーID: "@ + decimal(id as int) + seq!['\n']
}

/// What to append to the `info.txt` of a gallery that was stored under
/// `item_id`: the id line when the file gave no id, else nothing.
pub fn id_line_to_append(info: &Info, item_id: i64) -> (r: Option<String>)
    ensures
        match r {
            Some(t) => info.gallery_id is None && t@ == gallery_id_line(item_id),
            None => info.gallery_id is Some,
        },
{
    if info.gallery_id.is_some() {
        return None;
    }
    let mut out = chars_of("ギャラリーID: ");
    write_i64(&mut out, item_id);
    out.push('\n');
    assert(out@ =~= gallery_id_line(item_id));
    Some(string_from_chars(out.as_slice()))
}

proof fn lemma_scan_append(st: (InfoView, Seq<char>), a: Seq<char>, b: Seq<char>)
    ensures
        info_scan_from(st, a + b) == info_scan_from(info_scan_from(st, a), b),
    decreases b.len(),
{
    if b.len() == 0 {
        assert(a + b =~= a);
    } else {
        lemma_scan_append(st, a, b.drop_last());
        assert((a + b).drop_last() =~= a + b.drop_last());
    }
}

proof fn lemma_scan_one_line(m: InfoView, line: Seq<char>)
    requires
        forall|k: int| 0 <= k < line.len() ==> #[trigger] line[k] != '\n',
    ensures
        info_scan_from((m, Seq::empty()), line) == (m, line),
    decreases line.len(),
{
    if line.len() > 0 {
        let p = line.drop_last();
        assert forall|k: int| 0 <= k < p.len() implies #[trigger] p[k] != '\n' by {
            assert(p[k] == line[k]);
        }
        lemma_scan_one_line(m, p);
        assert(p.push(line.last()) =~= line);
    }
}

proof fn lemma_scan_ends_line(st: (InfoView, Seq<char>), s: Seq<char>)
    requires
        s.len() > 0,
        s.last() == '\n',
    ensures
        info_scan_from(st, s).1 == Seq::<char>::empty(),
{
}

proof fn lemma_decimal_shape(id: i64)
    ensures
        ({
            let d = decimal(id as int);
            &&& d.len() > 0
            &&& d[0] == '-' || ('0' <= d[0] && d[0] <= '9')
            &&& '0' <= d.last() && d.last() <= '9'
            &&& forall|k: int|
                0 <= k < d.len() ==> #[trigger] d[k] != '\n' && d[k] != ':' && !is_white_space(
                    d[k],
                )
        }),
{
    let d = decimal(id as int);
    if id < 0 {
        let nd = crate::decimal::nat_digits((-id) as nat);
        lemma_nat_digits((-id) as nat);
        assert(d.last() == nd[nd.len() - 1]);
        assert(crate::decimal::is_digit(nd[nd.len() - 1]));
        assert forall|k: int| 0 <= k < d.len() implies #[trigger] d[k] != '\n' && d[k] != ':'
            && !is_white_space(d[k]) by {
            if k > 0 {
                assert(d[k] == nd[k - 1]);
                assert(crate::decimal::is_digit(nd[k - 1]));
            }
        }
    } else {
        lemma_nat_digits(id as nat);
        assert(crate::decimal::is_digit(d[0]));
        assert(crate::decimal::is_digit(d[d.len() - 1]));
        assert forall|k: int| 0 <= k < d.len() implies #[trigger] d[k] != '\n' && d[k] != ':'
            && !is_white_space(d[k]) by {
            assert(crate::decimal::is_digit(d[k]));
        }
    }
}

proof fn lemma_id_line_sets_id(m: InfoView, id: i64)
    ensures
        apply_line(m, "ギャラリーID: "@ + decimal(id as int)) == (InfoView { gallery_id: Some(id), ..m }),
{
    let d = decimal(id as int);
    let k = gallery_id_key();
    assert(k.len() == 7 && k[0] == 'ギ' && k[6] == 'D') by {
        reveal_strlit("ギャラリーID");
    }
    assert forall|i: int| 0 <= i < k.len() implies #[trigger] k[i] != ':' by {
        reveal_strlit("ギャラリーID");
    }
    assert("ギャラリーID: "@ + d =~= k + seq![':', ' '] + d) by {
        reveal_strlit("ギャラリーID: ");
        reveal_strlit("ギャラリーID");
    }
    lemma_key_line(m, k, d);
    assert(trim(d) == d && d != "N/A"@) by {
        lemma_decimal_shape(id);
        crate::text::lemma_trim_start_at(d, 0);
        crate::text::lemma_trim_end_at(d, d.len() as int);
        assert(d.skip(0) =~= d);
        assert(d.take(d.len() as int) =~= d);
        reveal_strlit("N/A");
        assert(d[0] != 'N');
    }
    crate::decimal::lemma_parse_decimal(id);
}

/// Appending the id line to an `info.txt` whose text is empty or ends with a
/// line break makes the file give that id when it is read again, whatever it
/// said of the id before, and leaves every other field as it was.
pub proof fn lemma_id_line_read_back(content: Seq<char>, id: i64)
    requires
        content.len() == 0 || content.last() == '\n',
    ensures
        parse_info(content + gallery_id_line(id)) == (InfoView {
            gallery_id: Some(id),
            ..parse_info(content)
        }),
{
    reveal_strlit("ギャラリーID: ");
    let d = decimal(id as int);
    lemma_decimal_shape(id);
    let prefix = "ギャラリーID: "@;
    let line = prefix + d;
    assert forall|k: int| 0 <= k < line.len() implies #[trigger] line[k] != '\n' by {
        if k >= prefix.len() {
            assert(line[k] == d[k - prefix.len()]);
        }
    }
    let st0 = (empty_info(), Seq::<char>::empty());
    let m = info_scan_from(st0, content).0;
    if content.len() > 0 {
        lemma_scan_ends_line(st0, content);
    }
    assert(content + gallery_id_line(id) =~= content + (line + seq!['\n']));
    lemma_scan_append(st0, content, line + seq!['\n']);
    lemma_scan_one_line(m, line);
    assert((line + seq!['\n']).drop_last() =~= line);
    let after = apply_line(m, line);
    assert(info_scan_from(st0, content + gallery_id_line(id)) == (after, Seq::<char>::empty()));
    assert(trim(Seq::<char>::empty()).len() == 0);
    assert(parse_info(content) == m) by {
        if content.len() == 0 {
            assert(info_scan_from(st0, content) == st0);
        }
    }
    lemma_id_line_sets_id(m, id);
}

/// A line `key: value`, with a key that has no `:` and no white space at
/// either end, sets the field of that key from the trimmed value (an unknown
/// key sets nothing) and leaves every other field as it was; a value `N/A`
/// changes nothing.
pub proof fn lemma_key_line(m: InfoView, k: Seq<char>, v: Seq<char>)
    requires
        k.len() > 0,
        !is_white_space(k[0]),
        !is_white_space(k.last()),
        forall|i: int| 0 <= i < k.len() ==> #[trigger] k[i] != ':',
    ensures
        apply_line(m, k + seq![':', ' '] + v) == (if trim(v) == "N/A"@ {
            m
        } else {
            apply_field(m, k, trim(v))
        }),
{
    let line = k + seq![':', ' '] + v;
    let sv = seq![' '] + v;
    // The start of the line is the key, which trimming keeps.
    assert(line[0] == k[0]);
    assert(crate::text::trim_start(line) == line);
    crate::text::lemma_trim_end_append(seq![':'], sv);
    crate::text::lemma_trim_end_append(k, seq![':'] + sv);
    assert(line =~= k + (seq![':'] + sv));
    let tl = k + (seq![':'] + crate::text::trim_end(sv));
    assert(trim(line) == tl);
    // It splits at the `:` after the key.
    assert forall|j: int| 0 <= j < k.len() implies #[trigger] tl[j] != ':' by {
        assert(tl[j] == k[j]);
    }
    assert(tl[k.len() as int] == ':');
    lemma_find_char_at(tl, ':', k.len() as int);
    assert(tl.take(k.len() as int) =~= k);
    assert(tl.skip(k.len() as int + 1) =~= crate::text::trim_end(sv));
    // The key trims to itself, the value to the trimmed value.
    crate::text::lemma_trim_start_at(k, 0);
    crate::text::lemma_trim_end_at(k, k.len() as int);
    assert(k.skip(0) =~= k);
    assert(k.take(k.len() as int) =~= k);
    crate::text::lemma_trim_of_trim_end(sv);
    crate::text::lemma_trim_leading_space(v);
}

/// A later line for a key wins: reading a text with one more line
/// `key: value` (neither holding a line break, the key no `:` and no white
/// space at either end) gives what the text gave, with the field of that key set
/// from the trimmed value and every other field as it was (or nothing
/// changed, for a value `N/A`).
pub proof fn lemma_later_line_wins(c: Seq<char>, k: Seq<char>, v: Seq<char>)
    requires
        k.len() > 0,
        !is_white_space(k[0]),
        !is_white_space(k.last()),
        forall|i: int| 0 <= i < k.len() ==> #[trigger] k[i] != ':' && k[i] != '\n',
        forall|i: int| 0 <= i < v.len() ==> #[trigger] v[i] != '\n',
    ensures
        parse_info(c + seq!['\n'] + k + seq![':', ' '] + v) == (if trim(v) == "N/A"@ {
            parse_info(c)
        } else {
            apply_field(parse_info(c), k, trim(v))
        }),
{
    let st0 = (empty_info(), Seq::<char>::empty());
    let line = k + seq![':', ' '] + v;
    assert forall|i: int| 0 <= i < line.len() implies #[trigger] line[i] != '\n' by {
        if i < k.len() {
            assert(line[i] == k[i]);
        } else if i >= k.len() + 2 {
            assert(line[i] == v[i - k.len() - 2]);
        }
    }
    lemma_scan_append(st0, c, seq!['\n']);
    let p = info_scan_from(st0, c);
    assert(seq!['\n'].drop_last() =~= Seq::<char>::empty());
    assert(info_scan_from(st0, c + seq!['\n']) == (parse_info(c), Seq::<char>::empty()));
    assert(c + seq!['\n'] + k + seq![':', ' '] + v =~= (c + seq!['\n']) + line);
    lemma_scan_append(st0, c + seq!['\n'], line);
    lemma_scan_one_line(parse_info(c), line);
    lemma_key_line(parse_info(c), k, v);
}

} // verus!
