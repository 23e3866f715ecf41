//! Which files of a gallery directory are images: the ones whose extension is
//! `png`, `jpg`, `jpeg`, `webp` or `gif`, in any ASCII case.

use vstd::prelude::*;
use crate::query::string_views;
use crate::text::{chars_of, eq_ignore_ascii_case, eq_ignore_ascii_case_chars, has_substring, sub_vec};

verus! {

broadcast use vstd::seq_lib::group_seq_properties;

/// The image extensions that the library shows.
pub open spec fn supported_extensions() -> Seq<Seq<char>> {
    seq!["png"@, "jpg"@, "jpeg"@, "webp"@, "gif"@]
}

/// Whether `ext` is one of the image extensions, up to ASCII case.
pub open spec fn is_supported_extension(ext: Seq<char>) -> bool {
    exists|i: int|
        0 <= i < supported_extensions().len() && eq_ignore_ascii_case(
            ext,
            #[trigger] supported_extensions()[i],
        )
}

/// The index of the last `c` in `s`, or `-1` where there is none.
pub open spec fn rfind_char(s: Seq<char>, c: char) -> int
    decreases s.len(),
{
    if s.len() == 0 {
        -1
    } else if s.last() == c {
        s.len() - 1
    } else {
        rfind_char(s.drop_last(), c)
    }
}

/// The extension of a file name, as `Path::extension` documents it: the
/// part after the last `.`; none where there is no `.`, or where the only `.`
/// begins the name.
pub open spec fn extension(name: Seq<char>) -> Option<Seq<char>> {
    let i = rfind_char(name, '.');
    if i <= 0 {
        None
    } else {
        Some(name.skip(i + 1))
    }
}

/// Whether a file of this name is an image that the library shows.
pub open spec fn is_image_name(name: Seq<char>) -> bool {
    match extension(name) {
        Some(e) => is_supported_extension(e),
        None => false,
    }
}

proof fn lemma_rfind_at(s: Seq<char>, c: char, i: int)
    requires
        -1 <= i < s.len(),
        forall|j: int| i < j < s.len() ==> #[trigger] s[j] != c,
        i == -1 || s[i] == c,
    ensures
        rfind_char(s, c) == i,
    decreases s.len(),
{
    if s.len() > 0 && i < s.len() - 1 {
        let t = s.drop_last();
        assert forall|j: int| i < j < t.len() implies #[trigger] t[j] != c by {
            assert(t[j] == s[j]);
        }
        if i >= 0 {
            assert(t[i] == s[i]);
        }
        lemma_rfind_at(t, c, i);
    }
}

/// The extension of a file name (`Path::extension`).
pub fn extension_of(name: &Vec<char>) -> (r: Option<Vec<char>>)
    ensures
        match r {
            Some(e) => extension(name@) == Some(e@),
            None => extension(name@) is None,
        },
{
    let mut i: usize = name.len();
    while i > 0 && name[i - 1] != '.'
        invariant
            i <= name.len(),
            forall|j: int| i <= j < name.len() ==> #[trigger] name@[j] != '.',
        decreases i,
    {
        i = i - 1;
    }
    proof {
        lemma_rfind_at(name@, '.', i - 1);
    }
    if i <= 1 {
        None
    } else {
        Some(sub_vec(name, i, name.len()))
    }
}

/// Whether `ext` is one of the image extensions, up to ASCII case.
pub fn is_supported_extension_chars(ext: &Vec<char>) -> (r: bool)
    ensures
        r == is_supported_extension(ext@),
{
    let exts = vec![
        chars_of("png"),
        chars_of("jpg"),
        chars_of("jpeg"),
        chars_of("webp"),
        chars_of("gif"),
    ];
    assert(exts@.map_values(|v: Vec<char>| v@) =~= supported_extensions());
    let mut i: usize = 0;
    while i < exts.len()
        invariant
            i <= exts.len(),
            exts@.map_values(|v: Vec<char>| v@) == supported_extensions(),
            forall|j: int|
                0 <= j < i ==> !eq_ignore_ascii_case(ext@, #[trigger] supported_extensions()[j]),
        decreases exts.len() - i,
    {
        assert(exts@[i as int]@ == supported_extensions()[i as int]);
        if eq_ignore_ascii_case_chars(ext, &exts[i]) {
            return true;
        }
        i = i + 1;
    }
    false
}

/// Whether a file of this name is an image that the library shows.
pub fn is_supported_file_name(name: &str) -> (r: bool)
    ensures
        r == is_image_name(name@),
{
    let n = chars_of(name);
    match extension_of(&n) {
        Some(e) => is_supported_extension_chars(&e),
        None => false,
    }
}

/// The text of `path` after its last `/`, or all of it where it has none.
pub open spec fn last_segment(path: Seq<char>) -> Seq<char> {
    path.skip(rfind_char(path, '/') + 1)
}

/// Whether `path` reads the same on every platform: it holds no `\`, has
/// no drive prefix (a `:` as its second character), does not begin with `//`
/// (a network share), and its text after the last `/` is a name (not empty,
/// `.` or `..`). A `:` anywhere else is an ordinary character of a name.
pub open spec fn is_plain_path(path: Seq<char>) -> bool {
    &&& !path.contains('\\')
    &&& !(path.len() >= 2 && path[1] == ':')
    &&& !(path.len() >= 2 && path[0] == '/' && path[1] == '/')
    &&& last_segment(path).len() > 0
    &&& last_segment(path) != "."@
    &&& last_segment(path) != ".."@
}

/// What holds of the file name that `Path::file_name` gives for `path`, on
/// every platform: for a plain path it is the text after the last `/`; any
/// name it gives is a non-empty part of the path's text, with no `/` where
/// the path holds no `\`.
pub open spec fn admits_file_name(path: Seq<char>, name: Option<Seq<char>>) -> bool {
    &&& is_plain_path(path) ==> name == Some(last_segment(path))
    &&& match name {
        Some(f) => f.len() > 0 && has_substring(path, f) && (!path.contains('\\') ==> !f.contains(
            '/',
        )),
        None => true,
    }
}

/// The views of an optional string.
pub open spec fn opt_view(s: Option<String>) -> Option<Seq<char>> {
    match s {
        Some(t) => Some(t@),
        None => None,
    }
}

/// `Path::file_name`, in text: the last component of the path, if it is a
/// name. Which characters separate components, and which prefixes a path may
/// have, differ between platforms; the contract claims what holds on all of
/// them (`admits_file_name`), and leaves unsaid which name a path that is not
/// plain gives.
#[verifier::external_body]
fn file_name_of(path: &str) -> (r: Option<String>)
    ensures
        admits_file_name(path@, opt_view(r)),
{
    match std::path::Path::new(path).file_name() {
        Some(f) => Some(f.to_string_lossy().into_owned()),
        None => None,
    }
}

/// Whether a path whose file name is `name` is an image the library shows.
pub open spec fn is_image_file(name: Option<Seq<char>>) -> bool {
    match name {
        Some(f) => is_image_name(f),
        None => false,
    }
}

/// Whether the file at `path` is an image that the library shows, by the
/// extension of its file name.
pub fn is_supported_image(path: &str) -> (r: bool)
    ensures
        is_plain_path(path@) ==> r == is_image_name(last_segment(path@)),
        exists|name: Option<Seq<char>>| admits_file_name(path@, name) && r == is_image_file(name),
{
    let name = file_name_of(path);
    let ghost nv = opt_view(name);
    let r = match name {
        Some(f) => is_supported_file_name(f.as_str()),
        None => false,
    };
    assert(admits_file_name(path@, nv) && r == is_image_file(nv));
    r
}

/// The paths whose file names (given in `names`, one for each path) are image
/// names, in their order.
pub open spec fn image_paths(paths: Seq<Seq<char>>, names: Seq<Option<Seq<char>>>) -> Seq<
    Seq<char>,
>
    decreases paths.len(),
{
    if paths.len() == 0 {
        Seq::empty()
    } else {
        let before = image_paths(paths.drop_last(), names.drop_last());
        if is_image_file(names.last()) {
            before.push(paths.last())
        } else {
            before
        }
    }
}

/// The views of a list of optional strings.
pub open spec fn opt_views(v: Seq<Option<String>>) -> Seq<Option<Seq<char>>> {
    v.map_values(|s: Option<String>| opt_view(s))
}

/// The paths whose file names, given in `names` (one for each path), are
/// image names, in their order.
pub fn select_image_paths(paths: &Vec<String>, names: &Vec<Option<String>>) -> (r: Vec<String>)
    requires
        names.len() == paths.len(),
    ensures
        string_views(r@) == image_paths(string_views(paths@), opt_views(names@)),
{
    let mut out: Vec<String> = Vec::new();
    let ghost nv = opt_views(names@);
    let mut i: usize = 0;
    while i < paths.len()
        invariant
            i <= paths.len(),
            names.len() == paths.len(),
            nv == opt_views(names@),
            string_views(out@) == image_paths(string_views(paths@).take(i as int), nv.take(i as int)),
        decreases paths.len() - i,
    {
        let keep = match &names[i] {
            Some(f) => is_supported_file_name(f.as_str()),
            None => false,
        };
        let ghost before = out@;
        if keep {
            out.push(paths[i].clone());
        }
        proof {
            let ps = string_views(paths@);
            assert(ps.take(i + 1).drop_last() =~= ps.take(i as int));
            assert(nv.take(i + 1).drop_last() =~= nv.take(i as int));
            assert(nv.take(i + 1).last() == opt_view(names@[i as int]));
            if keep {
                assert(string_views(out@) =~= string_views(before).push(paths@[i as int]@));
            }
        }
        i = i + 1;
    }
    assert(string_views(paths@).take(paths.len() as int) =~= string_views(paths@));
    assert(nv.take(paths.len() as int) =~= nv);
    out
}

/// The file names of plain paths: the text after the last `/` of each.
pub open spec fn plain_file_names(paths: Seq<Seq<char>>) -> Seq<Option<Seq<char>>> {
    paths.map_values(|p: Seq<char>| Some(last_segment(p)))
}

/// Among plain paths, the images are the paths whose text after the last
/// `/` is an image name, in their order.
pub proof fn lemma_plain_image_paths(ps: Seq<Seq<char>>)
    ensures
        image_paths(ps, plain_file_names(ps)) == ps.filter(
            |p: Seq<char>| is_image_name(last_segment(p)),
        ),
    decreases ps.len(),
{
    reveal(Seq::filter);
    if ps.len() > 0 {
        lemma_plain_image_paths(ps.drop_last());
        assert(plain_file_names(ps).drop_last() =~= plain_file_names(ps.drop_last()));
        assert(plain_file_names(ps).last() == Some(last_segment(ps.last())));
    }
}

/// The paths, among those of a directory's files, of the images that the
/// library shows, in their order. A path is kept by its file name, as
/// `is_supported_image` decides.
pub fn collect_image_paths(paths: &Vec<String>) -> (r: Vec<String>)
    ensures
        (forall|i: int| 0 <= i < paths@.len() ==> is_plain_path(#[trigger] paths@[i]@))
            ==> string_views(r@) == string_views(paths@).filter(
            |p: Seq<char>| is_image_name(last_segment(p)),
        ),
        (forall|i: int| 0 <= i < paths@.len() ==> is_plain_path(#[trigger] paths@[i]@))
            ==> string_views(r@) == image_paths(
            string_views(paths@),
            plain_file_names(string_views(paths@)),
        ),
        exists|names: Seq<Option<Seq<char>>>|
            names.len() == paths@.len() && (forall|i: int|
                0 <= i < paths@.len() ==> admits_file_name(paths@[i]@, #[trigger] names[i]))
                && string_views(r@) == image_paths(string_views(paths@), names),
{
    let mut names: Vec<Option<String>> = Vec::new();
    let mut i: usize = 0;
    while i < paths.len()
        invariant
            i <= paths.len(),
            names.len() == i,
            forall|j: int| 0 <= j < i ==> admits_file_name(paths@[j]@, #[trigger] opt_views(names@)[j]),
        decreases paths.len() - i,
    {
        let name = file_name_of(paths[i].as_str());
        let ghost before = names@;
        names.push(name);
        proof {
            assert forall|j: int| 0 <= j < i + 1 implies admits_file_name(
                paths@[j]@,
                #[trigger] opt_views(names@)[j],
            ) by {
                if j < i {
                    assert(opt_views(names@)[j] == opt_views(before)[j]);
                }
            }
        }
        i = i + 1;
    }
    let r = select_image_paths(paths, &names);
    proof {
        lemma_plain_image_paths(string_views(paths@));
    }
    assert(opt_views(names@).len() == paths@.len());
    proof {
        if forall|i: int| 0 <= i < paths@.len() ==> is_plain_path(#[trigger] paths@[i]@) {
            assert(opt_views(names@) =~= plain_file_names(string_views(paths@))) by {
                assert forall|i: int| 0 <= i < paths@.len() implies opt_views(names@)[i]
                    == plain_file_names(string_views(paths@))[i] by {
                    assert(admits_file_name(paths@[i]@, opt_views(names@)[i]));
                    assert(is_plain_path(paths@[i]@));
                }
            }
        }
    }
    r
}

} // verus!
