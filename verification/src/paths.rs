//! What a path says about the file it names.
//!
//! Paths are read as the catalog stores them: absolute, canonical, their
//! components separated by `/`. The last component is the file's name; what
//! follows the last dot of the name, unless the name begins with that dot, is
//! its extension.

use vstd::prelude::*;
use vstd::string::StrSliceExecFns;
use vstd::string::StringExecFns;
use crate::text::starts_with;
use crate::text::chars_of;

verus! {

/// Where `c` stands last in `s`, or -1 where it does not occur.
pub open spec fn last_index_of(s: Seq<char>, c: char) -> int
    decreases s.len(),
{
    if s.len() == 0 {
        -1
    } else if s.last() == c {
        s.len() - 1
    } else {
        last_index_of(s.drop_last(), c)
    }
}

/// `last_index_of` is the greatest index at which `c` stands.
pub proof fn lemma_last_index_of(s: Seq<char>, c: char)
    ensures
        -1 <= last_index_of(s, c) < s.len(),
        last_index_of(s, c) >= 0 ==> s[last_index_of(s, c)] == c,
        forall|k: int| last_index_of(s, c) < k < s.len() ==> #[trigger] s[k] != c,
    decreases s.len(),
{
    if s.len() > 0 && s.last() != c {
        let front = s.drop_last();
        lemma_last_index_of(front, c);
        assert forall|k: int| last_index_of(s, c) < k < s.len() implies #[trigger] s[k] != c by {
            if k < s.len() - 1 {
                assert(front[k] != c);
            }
        }
    }
}

/// The greatest index at which `c` stands is `last_index_of`.
pub proof fn lemma_last_index_is(s: Seq<char>, c: char, i: int)
    requires
        -1 <= i < s.len(),
        i >= 0 ==> s[i] == c,
        forall|k: int| i < k < s.len() ==> #[trigger] s[k] != c,
    ensures
        last_index_of(s, c) == i,
{
    lemma_last_index_of(s, c);
    let j = last_index_of(s, c);
    if j > i {
        assert(s[j] != c);
    }
}

/// The last component of `path`.
pub open spec fn file_name(path: Seq<char>) -> Seq<char> {
    path.skip(last_index_of(path, '/') + 1)
}

/// `path` without its last component and the separator before it.
pub open spec fn parent(path: Seq<char>) -> Seq<char> {
    if last_index_of(path, '/') < 0 {
        Seq::empty()
    } else {
        path.take(last_index_of(path, '/'))
    }
}

/// Whether a component names a file or a directory.
pub open spec fn is_name(component: Seq<char>) -> bool {
    component.len() > 0 && component != seq!['.'] && component != seq!['.', '.']
}

/// The extension of a file name.
pub open spec fn extension(name: Seq<char>) -> Option<Seq<char>> {
    if last_index_of(name, '.') <= 0 {
        None
    } else {
        Some(name.skip(last_index_of(name, '.') + 1))
    }
}

/// A file name without its extension.
pub open spec fn stem(name: Seq<char>) -> Seq<char> {
    if last_index_of(name, '.') <= 0 {
        name
    } else {
        name.take(last_index_of(name, '.'))
    }
}

/// The title of the image at `path`: its file name without the extension.
pub open spec fn title(path: Seq<char>) -> Seq<char> {
    stem(file_name(path))
}

/// The gallery of the image at `path`: the name of the directory it lies in.
pub open spec fn gallery(path: Seq<char>) -> Seq<char> {
    file_name(parent(path))
}

/// Whether a title and a gallery can be read off `path`.
pub open spec fn is_image_path(path: Seq<char>) -> bool {
    is_name(file_name(path)) && is_name(gallery(path))
}

/// The extensions of the images that a scan takes up.
pub open spec fn is_known_extension(e: Seq<char>) -> bool {
    ||| e == "heic"@
    ||| e == "HEIC"@
    ||| e == "jpg"@
    ||| e == "JPG"@
    ||| e == "jpeg"@
    ||| e == "JPEG"@
}

/// Whether a scan takes up the file at `path`: its name does not begin with a
/// dot and its extension is a known one.
pub open spec fn is_recognized(path: Seq<char>) -> bool {
    match extension(file_name(path)) {
        Some(e) => file_name(path)[0] != '.' && is_known_extension(e),
        None => false,
    }
}

/// An ASCII capital as its small letter, another character as itself.
pub open spec fn lower(c: char) -> char {
    if 'A' <= c <= 'Z' {
        ((c as u8 + 32) as u8) as char
    } else {
        c
    }
}

/// Whether an extension is `heic` in any mix of capitals and small letters.
pub open spec fn is_heic(e: Seq<char>) -> bool {
    e.map_values(|c: char| lower(c)) == seq!['h', 'e', 'i', 'c']
}

/// Whether `path` is `root` or lies below it.
pub open spec fn lies_under(path: Seq<char>, root: Seq<char>) -> bool {
    &&& root.is_prefix_of(path)
    &&& (root.len() == path.len() || path[root.len() as int] == '/' || (root.len() > 0
        && root.last() == '/'))
}

/// Where `c` stands last among the first `end` characters.
fn last_index(v: &Vec<char>, end: usize, c: char) -> (r: Option<usize>)
    requires
        end <= v.len(),
    ensures
        match r {
            Some(i) => i == last_index_of(v@.take(end as int), c),
            None => last_index_of(v@.take(end as int), c) == -1,
        },
{
    let mut i: usize = end;
    while i > 0
        invariant
            i <= end <= v.len(),
            last_index_of(v@.take(end as int), c) == last_index_of(v@.take(i as int), c),
        decreases i,
    {
        if v[i - 1] == c {
            return Some(i - 1);
        }
        assert(v@.take(i as int).drop_last() =~= v@.take(i - 1));
        i -= 1;
    }
    None
}

/// Where the file name begins.
fn name_start(v: &Vec<char>) -> (r: usize)
    ensures
        r == last_index_of(v@, '/') + 1,
        r <= v.len(),
{
    proof {
        lemma_last_index_of(v@, '/');
        assert(v@.take(v.len() as int) =~= v@);
    }
    match last_index(v, v.len(), '/') {
        Some(i) => i + 1,
        None => 0,
    }
}

/// Whether the characters from `from` to `to` are a name.
fn is_name_at(v: &Vec<char>, from: usize, to: usize) -> (r: bool)
    requires
        from <= to <= v.len(),
    ensures
        r == is_name(v@.subrange(from as int, to as int)),
{
    let ghost part = v@.subrange(from as int, to as int);
    let ghost one = seq!['.'];
    let ghost two = seq!['.', '.'];
    assert(one.len() == 1 && one[0] == '.');
    assert(two.len() == 2 && two[0] == '.' && two[1] == '.');
    if to - from == 0 {
        false
    } else if to - from == 1 {
        assert(part[0] == v@[from as int]);
        assert(v@[from as int] == '.' ==> part =~= one);
        v[from] != '.'
    } else if to - from == 2 {
        assert(part[0] == v@[from as int] && part[1] == v@[from + 1]);
        assert(v@[from as int] == '.' && v@[from + 1] == '.' ==> part =~= two);
        !(v[from] == '.' && v[from + 1] == '.')
    } else {
        true
    }
}

/// Where the extension of the file name begins, if the name has one.
fn extension_start(v: &Vec<char>) -> (r: Option<usize>)
    ensures
        match r {
            Some(i) => {
                &&& last_index_of(v@, '/') + 1 < i <= v.len()
                &&& extension(file_name(v@)) == Some(v@.skip(i as int))
                &&& stem(file_name(v@)) == v@.subrange(last_index_of(v@, '/') + 1, i - 1)
            },
            None => extension(file_name(v@)) is None && stem(file_name(v@)) == file_name(v@),
        },
{
    let start: usize = name_start(v);
    proof {
        lemma_dot_in_name(v@);
        assert(v@.take(v.len() as int) =~= v@);
    }
    match last_index(v, v.len(), '.') {
        Some(d) => {
            if d > start {
                Some(d + 1)
            } else {
                None
            }
        },
        None => None,
    }
}

/// The last dot of a path, where it stands in the file name, is the last dot
/// of the file name.
proof fn lemma_dot_in_name(path: Seq<char>)
    ensures
        ({
            let start = last_index_of(path, '/') + 1;
            let d = last_index_of(path, '.');
            let name = file_name(path);
            &&& 0 <= start <= path.len()
            &&& -1 <= d < path.len()
            &&& d > start ==> {
                &&& extension(name) == Some(path.skip(d + 1))
                &&& stem(name) == path.subrange(start, d)
            }
            &&& d <= start ==> extension(name) is None && stem(name) == name
        }),
{
    let start = last_index_of(path, '/') + 1;
    let d = last_index_of(path, '.');
    let name = file_name(path);
    lemma_last_index_of(path, '/');
    lemma_last_index_of(path, '.');
    if d >= start {
        assert(name[d - start] == '.');
        assert forall|k: int| d - start < k < name.len() implies #[trigger] name[k] != '.' by {
            assert(path[k + start] != '.');
        }
        lemma_last_index_is(name, '.', d - start);
        if d > start {
            assert(name.skip(d - start + 1) =~= path.skip(d + 1));
            assert(name.take(d - start) =~= path.subrange(start, d));
        }
    } else {
        assert forall|k: int| -1 < k < name.len() implies #[trigger] name[k] != '.' by {
            assert(path[k + start] != '.');
        }
        lemma_last_index_is(name, '.', -1);
    }
}

/// Whether a scan takes up the file at `path`.
pub fn is_recognized_filename(path: &str) -> (r: bool)
    ensures
        r == is_recognized(path@),
{
    let v = chars_of(path);
    let start: usize = name_start(&v);
    match extension_start(&v) {
        Some(i) => {
            if v[start] == '.' {
                return false;
            }
            let e = path.substring_char(i, v.len());
            assert(v@.skip(i as int) =~= v@.subrange(i as int, v.len() as int));
            is_known(e)
        },
        None => false,
    }
}

/// Whether `e` is one of the known extensions.
fn is_known(e: &str) -> (r: bool)
    ensures
        r == is_known_extension(e@),
{
    let v = chars_of(e);
    proof {
        reveal_strlit("heic");
        reveal_strlit("HEIC");
        reveal_strlit("jpg");
        reveal_strlit("JPG");
        reveal_strlit("jpeg");
        reveal_strlit("JPEG");
    }
    if v.len() == 3 {
        let r = (v[0] == 'j' && v[1] == 'p' && v[2] == 'g') || (v[0] == 'J' && v[1] == 'P' && v[2]
            == 'G');
        assert(r ==> (e@ =~= "jpg"@ || e@ =~= "JPG"@));
        r
    } else if v.len() == 4 {
        let r = (v[0] == 'h' && v[1] == 'e' && v[2] == 'i' && v[3] == 'c') || (v[0] == 'H' && v[1]
            == 'E' && v[2] == 'I' && v[3] == 'C') || (v[0] == 'j' && v[1] == 'p' && v[2] == 'e'
            && v[3] == 'g') || (v[0] == 'J' && v[1] == 'P' && v[2] == 'E' && v[3] == 'G');
        assert(r ==> (e@ =~= "heic"@ || e@ =~= "HEIC"@ || e@ =~= "jpeg"@ || e@ =~= "JPEG"@));
        r
    } else {
        false
    }
}

/// The title and the gallery of the image at `path`, where both can be read
/// off it.
pub fn image_names(path: &str) -> (r: Option<(String, String)>)
    ensures
        match r {
            Some((t, g)) => is_image_path(path@) && t@ == title(path@) && g@ == gallery(path@),
            None => !is_image_path(path@),
        },
{
    let v = chars_of(path);
    let start: usize = name_start(&v);
    assert(file_name(v@) =~= v@.subrange(start as int, v.len() as int));
    if start == 0 || !is_name_at(&v, start, v.len()) {
        assert(start == 0 ==> gallery(v@) =~= Seq::<char>::empty());
        return None;
    }
    let up: usize = start - 1;
    let ghost above = v@.take(up as int);
    assert(above == parent(v@));
    proof {
        lemma_last_index_of(above, '/');
    }
    let from: usize = match last_index(&v, up, '/') {
        Some(i) => i + 1,
        None => 0,
    };
    assert(gallery(v@) =~= v@.subrange(from as int, up as int));
    if !is_name_at(&v, from, up) {
        return None;
    }
    let g = String::from_str(path.substring_char(from, up));
    let t = match extension_start(&v) {
        Some(i) => String::from_str(path.substring_char(start, i - 1)),
        None => String::from_str(path.substring_char(start, v.len())),
    };
    Some((t, g))
}

/// The extension of the file at `path`, where its name has one.
pub fn extension_of(path: &str) -> (r: Option<String>)
    ensures
        match r {
            Some(e) => extension(file_name(path@)) == Some(e@),
            None => extension(file_name(path@)) is None,
        },
{
    let v = chars_of(path);
    match extension_start(&v) {
        Some(i) => {
            assert(v@.skip(i as int) =~= v@.subrange(i as int, v.len() as int));
            Some(String::from_str(path.substring_char(i, v.len())))
        },
        None => None,
    }
}

/// The small letter of an ASCII capital, another character as it is.
fn to_lower(c: char) -> (r: char)
    ensures
        r == lower(c),
{
    if 'A' <= c && c <= 'Z' {
        ((c as u8) + 32) as char
    } else {
        c
    }
}

/// Whether an extension is `heic` in any mix of capitals and small letters.
pub fn is_heic_extension(e: &str) -> (r: bool)
    ensures
        r == is_heic(e@),
{
    let v = chars_of(e);
    let ghost small = e@.map_values(|c: char| lower(c));
    let ghost heic = seq!['h', 'e', 'i', 'c'];
    assert(heic.len() == 4 && heic[0] == 'h' && heic[1] == 'e' && heic[2] == 'i' && heic[3] == 'c');
    if v.len() != 4 {
        assert(small.len() != heic.len());
        return false;
    }
    assert(small[0] == lower(v@[0]) && small[1] == lower(v@[1]) && small[2] == lower(v@[2])
        && small[3] == lower(v@[3]));
    let r = to_lower(v[0]) == 'h' && to_lower(v[1]) == 'e' && to_lower(v[2]) == 'i' && to_lower(
        v[3],
    ) == 'c';
    assert(r ==> small =~= heic);
    r
}

/// Whether `path` is `root` or lies below it.
pub fn is_under(path: &str, root: &str) -> (r: bool)
    ensures
        r == lies_under(path@, root@),
{
    if !starts_with(path, root) {
        return false;
    }
    let p = chars_of(path);
    let base = chars_of(root);
    if base.len() == p.len() {
        return true;
    }
    p[base.len()] == '/' || (base.len() > 0 && base[base.len() - 1] == '/')
}

} // verus!
