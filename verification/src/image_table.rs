//! The catalog: one row for each original image that the gallery tracks.

use vstd::prelude::*;
use vstd::string::StringExecFns;
use crate::digest::content_hash;
use crate::digest::file_md5;
use crate::error::error;
use crate::error::CommandError;
use crate::error::Failure;
use crate::paths::gallery;
use crate::paths::image_names;
use crate::paths::is_image_path;
use crate::paths::title;
use crate::text::lemma_hex_differs;
use crate::text::lemma_text_order;
use crate::text::lower_hex;
use crate::text::precedes;
use crate::text::text_precedes;
use crate::text::to_lower_hex;

verus! {

/// The name of the thumbnail of an image with identity `md5`.
pub open spec fn thumbnail_name(md5: nat) -> Seq<char> {
    lower_hex(md5) + "-thumbnail.jpg"@
}

/// The name of the web view of an image with identity `md5`.
pub open spec fn webview_name(md5: nat) -> Seq<char> {
    lower_hex(md5) + "-webview.jpg"@
}

/// Images with different identities have derivatives of different names,
/// and no thumbnail has the name of a web view.
pub proof fn lemma_names_differ(a: nat, b: nat)
    ensures
        a != b ==> thumbnail_name(a) != thumbnail_name(b) && webview_name(a) != webview_name(b),
        thumbnail_name(a) != webview_name(b),
{
    reveal_strlit("-thumbnail.jpg");
    reveal_strlit("-webview.jpg");
    let x = lower_hex(a);
    let y = lower_hex(b);
    let small = "-thumbnail.jpg"@;
    let view = "-webview.jpg"@;
    if thumbnail_name(a) == thumbnail_name(b) {
        assert(thumbnail_name(a).len() == x.len() + small.len());
        assert(thumbnail_name(b).len() == y.len() + small.len());
        assert(x =~= thumbnail_name(a).subrange(0, x.len() as int));
        assert(y =~= thumbnail_name(b).subrange(0, y.len() as int));
        lemma_hex_differs(a, b);
    }
    if webview_name(a) == webview_name(b) {
        assert(webview_name(a).len() == x.len() + view.len());
        assert(webview_name(b).len() == y.len() + view.len());
        assert(x =~= webview_name(a).subrange(0, x.len() as int));
        assert(y =~= webview_name(b).subrange(0, y.len() as int));
        lemma_hex_differs(a, b);
    }
    if thumbnail_name(a) == webview_name(b) {
        let n = thumbnail_name(a).len() as int;
        assert(thumbnail_name(a)[n - 5] == small[small.len() - 5]);
        assert(webview_name(b)[n - 5] == view[view.len() - 5]);
        assert(small[9] == 'l' && view[7] == 'w');
    }
}

/// A row as contracts speak of it.
pub struct Entry {
    pub original_path: Seq<char>,
    pub md5: nat,
    pub gallery: Seq<char>,
    pub title: Seq<char>,
    pub thumbnail_path: Seq<char>,
    pub webview_path: Seq<char>,
}

impl Entry {
    /// The entry of the image at `path` whose content has identity `md5`.
    pub open spec fn of(path: Seq<char>, md5: nat) -> Entry {
        Entry {
            original_path: path,
            md5,
            gallery: gallery(path),
            title: title(path),
            thumbnail_path: thumbnail_name(md5),
            webview_path: webview_name(md5),
        }
    }

    /// Everything but the path and the identity is derived from these two.
    pub open spec fn wf(self) -> bool {
        is_image_path(self.original_path) && self == Entry::of(self.original_path, self.md5)
    }

    /// The entry once the content of the image has identity `md5`.
    pub open spec fn with_md5(self, md5: nat) -> Entry {
        Entry {
            md5,
            thumbnail_path: thumbnail_name(md5),
            webview_path: webview_name(md5),
            ..self
        }
    }
}

/// One tracked original and the names of its derivatives.
#[derive(Debug)]
pub struct Row {
    /// The path of the original image, absolute and canonical.
    pub original_path: String,
    /// The identity of the content of the original.
    pub md5: u128,
    /// The name of the gallery, derived from the path.
    pub gallery: String,
    /// The title of the image, derived from the path.
    pub title: String,
    /// The name of the thumbnail.
    pub thumbnail_path: String,
    /// The name of the web view.
    pub webview_path: String,
}

impl View for Row {
    type V = Entry;

    open spec fn view(&self) -> Entry {
        Entry {
            original_path: self.original_path@,
            md5: self.md5 as nat,
            gallery: self.gallery@,
            title: self.title@,
            thumbnail_path: self.thumbnail_path@,
            webview_path: self.webview_path@,
        }
    }
}

/// The name of the thumbnail of an image with identity `md5`.
pub fn thumbnail_file_name(md5: u128) -> (name: String)
    ensures
        name@ == thumbnail_name(md5 as nat),
{
    to_lower_hex(md5).concat("-thumbnail.jpg")
}

/// The name of the web view of an image with identity `md5`.
pub fn webview_file_name(md5: u128) -> (name: String)
    ensures
        name@ == webview_name(md5 as nat),
{
    to_lower_hex(md5).concat("-webview.jpg")
}

impl Row {
    /// The row of the image at `original_path` with the given content. Fails
    /// where the path does not name a file in a named directory.
    pub fn new(original_path: String, content: &[u8]) -> (r: Result<Row, CommandError>)
        ensures
            match r {
                Ok(row) => is_image_path(original_path@) && row@ == Entry::of(
                    original_path@,
                    content_hash(content@),
                ),
                Err(e) => !is_image_path(original_path@) && e@ == Failure::Other(
                    "path does not name a file in a directory"@,
                ),
            },
    {
        let md5 = file_md5(content);
        match image_names(original_path.as_str()) {
            Some((title, gallery)) => Ok(
                Row {
                    original_path,
                    md5,
                    gallery,
                    title,
                    thumbnail_path: thumbnail_file_name(md5),
                    webview_path: webview_file_name(md5),
                },
            ),
            None => Err(error("path does not name a file in a directory")),
        }
    }

    /// Takes up the identity of `content`, and the names that go with it,
    /// where it is not the identity that the row holds; says whether the row
    /// has changed.
    pub fn update(&mut self, content: &[u8]) -> (changed: bool)
        ensures
            changed == (old(self)@.md5 != content_hash(content@)),
            changed ==> final(self)@ == old(self)@.with_md5(content_hash(content@)),
            !changed ==> *final(self) == *old(self),
    {
        let current: u128 = file_md5(content);
        if self.md5 == current {
            return false;
        }
        self.md5 = current;
        self.thumbnail_path = thumbnail_file_name(current);
        self.webview_path = webview_file_name(current);
        true
    }

    /// Whether everything but the path and the identity is derived from
    /// these two.
    pub fn is_well_formed(&self) -> (r: bool)
        ensures
            r == self@.wf(),
    {
        match image_names(self.original_path.as_str()) {
            Some((title, gallery)) => {
                title == self.title && gallery == self.gallery && thumbnail_file_name(self.md5)
                    == self.thumbnail_path && webview_file_name(self.md5) == self.webview_path
            },
            None => false,
        }
    }

    /// A second row like this one.
    pub fn duplicate(&self) -> (row: Row)
        ensures
            row@ == self@,
    {
        Row {
            original_path: self.original_path.clone(),
            md5: self.md5,
            gallery: self.gallery.clone(),
            title: self.title.clone(),
            thumbnail_path: self.thumbnail_path.clone(),
            webview_path: self.webview_path.clone(),
        }
    }
}

/// What a query shows of a row.
#[derive(Clone, Copy, Debug)]
pub struct RowView<'a> {
    pub thumbnail_path: &'a str,
    pub webview_path: &'a str,
    pub original_path: &'a str,
}

/// What a query shows of a row, as contracts speak of it.
pub struct Listing {
    pub thumbnail_path: Seq<char>,
    pub webview_path: Seq<char>,
    pub original_path: Seq<char>,
}

impl<'a> View for RowView<'a> {
    type V = Listing;

    open spec fn view(&self) -> Listing {
        Listing {
            thumbnail_path: self.thumbnail_path@,
            webview_path: self.webview_path@,
            original_path: self.original_path@,
        }
    }
}

impl Entry {
    /// What a query shows of the entry.
    pub open spec fn listing(self) -> Listing {
        Listing {
            thumbnail_path: self.thumbnail_path,
            webview_path: self.webview_path,
            original_path: self.original_path,
        }
    }
}

/// Whether some entry is that of the image at `path`.
pub open spec fn tracks(entries: Seq<Entry>, path: Seq<char>) -> bool {
    exists|i: int| 0 <= i < entries.len() && #[trigger] entries[i].original_path == path
}

/// Whether entry `i` is the first that is of the image at `path`.
pub open spec fn is_first(entries: Seq<Entry>, path: Seq<char>, i: int) -> bool {
    &&& 0 <= i < entries.len()
    &&& entries[i].original_path == path
    &&& forall|k: int| 0 <= k < i ==> #[trigger] entries[k].original_path != path
}

/// Which entry is the first of the image at `path`, where one is.
pub open spec fn position(entries: Seq<Entry>, path: Seq<char>) -> int {
    choose|i: int| is_first(entries, path, i)
}

/// No two entries are of the same image.
pub open spec fn distinct(entries: Seq<Entry>) -> bool {
    forall|i: int, j: int|
        0 <= i < j < entries.len() ==> #[trigger] entries[i].original_path
            != #[trigger] entries[j].original_path
}

/// The catalog is as it should be: one entry for each image, each derived
/// from the path and the identity of its image.
pub open spec fn well_formed(entries: Seq<Entry>) -> bool {
    distinct(entries) && forall|i: int| 0 <= i < entries.len() ==> (#[trigger] entries[i]).wf()
}

/// The entries with `entry` put in: in place of the first entry of the same
/// image, or at the end where there is none.
pub open spec fn put(entries: Seq<Entry>, entry: Entry) -> Seq<Entry> {
    if tracks(entries, entry.original_path) {
        entries.update(position(entries, entry.original_path), entry)
    } else {
        entries.push(entry)
    }
}

/// The entries without the first entry of the image at `path`.
pub open spec fn without(entries: Seq<Entry>, path: Seq<char>) -> Seq<Entry> {
    if tracks(entries, path) {
        entries.remove(position(entries, path))
    } else {
        entries
    }
}

/// The first entry of an image is the entry at `position`, and there is one
/// where the image is tracked.
pub proof fn lemma_position(entries: Seq<Entry>, path: Seq<char>)
    ensures
        tracks(entries, path) ==> is_first(entries, path, position(entries, path)),
        forall|i: int| is_first(entries, path, i) ==> i == position(entries, path),
        forall|i: int| is_first(entries, path, i) ==> tracks(entries, path),
    decreases entries.len(),
{
    if tracks(entries, path) {
        let some = choose|i: int| 0 <= i < entries.len() && #[trigger] entries[i].original_path
            == path;
        lemma_first_exists(entries, path, some);
    }
    assert forall|i: int| is_first(entries, path, i) implies i == position(entries, path) by {
        let p = position(entries, path);
        assert(is_first(entries, path, p));
        if i < p {
            assert(entries[i].original_path != path);
        } else if p < i {
            assert(entries[p].original_path != path);
        }
    }
}

/// Before an entry of an image stands a first one.
proof fn lemma_first_exists(entries: Seq<Entry>, path: Seq<char>, some: int)
    requires
        0 <= some < entries.len(),
        entries[some].original_path == path,
    ensures
        exists|i: int| is_first(entries, path, i),
    decreases some,
{
    if exists|k: int| 0 <= k < some && #[trigger] entries[k].original_path == path {
        let k = choose|k: int| 0 <= k < some && #[trigger] entries[k].original_path == path;
        lemma_first_exists(entries, path, k);
    } else {
        assert(is_first(entries, path, some));
    }
}

/// The images that the gallery tracks, in the order in which they came.
#[derive(Debug)]
pub struct ImageTable {
    pub rows: Vec<Row>,
}

impl View for ImageTable {
    type V = Seq<Entry>;

    open spec fn view(&self) -> Seq<Entry> {
        self.rows@.map_values(|row: Row| row@)
    }
}

impl ImageTable {
    /// A catalog without rows.
    pub fn new() -> (table: ImageTable)
        ensures
            table@ == Seq::<Entry>::empty(),
    {
        let table = ImageTable { rows: Vec::new() };
        assert(table@ =~= Seq::<Entry>::empty());
        table
    }

    /// Whether the catalog is well formed: no image has two rows, and every
    /// row is derived from the path and the identity of its image.
    pub fn is_well_formed(&self) -> (r: bool)
        ensures
            r == well_formed(self@),
    {
        let mut i: usize = 0;
        while i < self.rows.len()
            invariant
                i <= self.rows.len(),
                forall|k: int| 0 <= k < i ==> (#[trigger] self@[k]).wf(),
                forall|k: int, m: int|
                    0 <= k < m < i ==> #[trigger] self@[k].original_path
                        != #[trigger] self@[m].original_path,
            decreases self.rows.len() - i,
        {
            if !self.rows[i].is_well_formed() {
                assert(!self@[i as int].wf());
                return false;
            }
            let mut j: usize = 0;
            while j < i
                invariant
                    j <= i < self.rows.len(),
                    forall|k: int| 0 <= k < j ==> #[trigger] self@[k].original_path
                        != self@[i as int].original_path,
                decreases i - j,
            {
                if self.rows[j].original_path == self.rows[i].original_path {
                    assert(self@[j as int].original_path == self@[i as int].original_path);
                    return false;
                }
                j += 1;
            }
            i += 1;
        }
        true
    }

    /// Where the first row of the image at `p` stands.
    pub fn find(&self, p: &str) -> (r: Option<usize>)
        ensures
            match r {
                Some(i) => is_first(self@, p@, i as int),
                None => !tracks(self@, p@),
            },
    {
        let key = String::from_str(p);
        let mut i: usize = 0;
        while i < self.rows.len()
            invariant
                i <= self.rows.len(),
                key@ == p@,
                forall|k: int| 0 <= k < i ==> (#[trigger] self@[k]).original_path != p@,
            decreases self.rows.len() - i,
        {
            if self.rows[i].original_path == key {
                return Some(i);
            }
            i += 1;
        }
        None
    }

    /// The first row of the image at `p`, to be changed in place.
    pub fn get_by_original_path(&mut self, p: &str) -> (r: Option<&mut Row>)
        ensures
            match r {
                Some(row) => {
                    &&& is_first(old(self)@, p@, position(old(self)@, p@))
                    &&& *row == old(self).rows@[position(old(self)@, p@)]
                    &&& final(self).rows@ == old(self).rows@.update(
                        position(old(self)@, p@),
                        *final(row),
                    )
                },
                None => !tracks(old(self)@, p@) && *final(self) == *old(self),
            },
    {
        proof {
            lemma_position(self@, p@);
        }
        match self.find(p) {
            Some(i) => Some(&mut self.rows[i]),
            None => None,
        }
    }

    /// The first row whose image has the identity `hash`.
    pub fn get_by_hash(&self, hash: u128) -> (r: Option<&Row>)
        ensures
            match r {
                Some(row) => exists|i: int|
                    {
                        &&& 0 <= i < self.rows.len()
                        &&& *row == self.rows@[i]
                        &&& row.md5 == hash
                        &&& forall|k: int| 0 <= k < i ==> (#[trigger] self.rows@[k]).md5 != hash
                    },
                None => forall|k: int| 0 <= k < self.rows.len() ==> (#[trigger] self.rows@[k]).md5
                    != hash,
            },
    {
        let mut i: usize = 0;
        while i < self.rows.len()
            invariant
                i <= self.rows.len(),
                forall|k: int| 0 <= k < i ==> (#[trigger] self.rows@[k]).md5 != hash,
            decreases self.rows.len() - i,
        {
            if self.rows[i].md5 == hash {
                return Some(&self.rows[i]);
            }
            i += 1;
        }
        None
    }
}

/// Whether the names stand in ascending order, none of them twice.
pub open spec fn ascending(names: Seq<Seq<char>>) -> bool {
    forall|i: int, j: int| 0 <= i < j < names.len() ==> text_precedes(names[i], names[j])
}

/// Whether some entry belongs to the gallery `name`.
pub open spec fn has_gallery(entries: Seq<Entry>, name: Seq<char>) -> bool {
    exists|k: int| 0 <= k < entries.len() && #[trigger] entries[k].gallery == name
}

/// Whether `names` are the names of the galleries of `entries`, each once and
/// in ascending order.
pub open spec fn lists_galleries(names: Seq<Seq<char>>, entries: Seq<Entry>) -> bool {
    &&& ascending(names)
    &&& forall|i: int| 0 <= i < names.len() ==> has_gallery(entries, #[trigger] names[i])
    &&& forall|k: int|
        0 <= k < entries.len() ==> names.contains((#[trigger] entries[k]).gallery)
}

/// What a query shows of a gallery: its entries in the order of the catalog.
pub open spec fn contents_of(entries: Seq<Entry>, name: Seq<char>) -> Seq<Listing> {
    entries.filter(|e: Entry| e.gallery == name).map_values(|e: Entry| e.listing())
}

/// The names in `names` stay in order and apart when `name`, which stands
/// between those before `at` and those from `at` on, is put in at `at`.
proof fn lemma_insert_keeps_order(names: Seq<Seq<char>>, at: int, name: Seq<char>)
    requires
        ascending(names),
        0 <= at <= names.len(),
        forall|m: int| 0 <= m < at ==> text_precedes(#[trigger] names[m], name),
        at < names.len() ==> text_precedes(name, names[at]),
    ensures
        ascending(names.insert(at, name)),
{
    let after = names.insert(at, name);
    assert forall|i: int, j: int| 0 <= i < j < after.len() implies text_precedes(
        after[i],
        after[j],
    ) by {
        if j == at {
            assert(after[i] == names[i]);
        } else if i == at {
            assert(after[j] == names[j - 1]);
            if j - 1 > at {
                lemma_text_order(name, names[at], names[j - 1]);
            }
        } else if i < at && j > at {
            assert(after[i] == names[i] && after[j] == names[j - 1]);
            lemma_text_order(names[i], name, names[j - 1]);
            if j - 1 > at {
                lemma_text_order(name, names[at], names[j - 1]);
            }
        } else if i < at {
            assert(after[i] == names[i] && after[j] == names[j]);
        } else {
            assert(after[i] == names[i - 1] && after[j] == names[j - 1]);
        }
    }
}

impl ImageTable {
    /// The names of the galleries, each once, in ascending order.
    pub fn gallery_list(&self) -> (list: Vec<&str>)
        ensures
            lists_galleries(list@.map_values(|name: &str| name@), self@),
    {
        let mut list: Vec<&str> = Vec::new();
        let mut i: usize = 0;
        while i < self.rows.len()
            invariant
                i <= self.rows.len(),
                lists_galleries(list@.map_values(|name: &str| name@), self@.take(i as int)),
            decreases self.rows.len() - i,
        {
            let name: &str = self.rows[i].gallery.as_str();
            let ghost names = list@.map_values(|name: &str| name@);
            let ghost seen = self@.take(i as int);
            let ghost next = self@.take(i + 1);
            assert(next[i as int].gallery == name@);
            assert forall|k: int| 0 <= k < seen.len() implies seen[k] == next[k] by {}
            let mut at: usize = 0;
            while at < list.len() && precedes(list[at], name)
                invariant
                    at <= list.len(),
                    names == list@.map_values(|name: &str| name@),
                    forall|m: int| 0 <= m < at ==> text_precedes(#[trigger] names[m], name@),
                decreases list.len() - at,
            {
                assert(names[at as int] == list@[at as int]@);
                at += 1;
            }
            if at < list.len() && !precedes(name, list[at]) {
                proof {
                    assert(names[at as int] == list@[at as int]@);
                    lemma_text_order(name@, names[at as int], name@);
                    assert(names[at as int] == name@);
                    assert forall|m: int| 0 <= m < names.len() implies has_gallery(
                        next,
                        #[trigger] names[m],
                    ) by {
                        assert(has_gallery(seen, names[m]));
                        let k = choose|k: int|
                            0 <= k < seen.len() && #[trigger] seen[k].gallery == names[m];
                        assert(next[k].gallery == names[m]);
                    }
                    assert forall|k: int| 0 <= k < next.len() implies names.contains(
                        (#[trigger] next[k]).gallery,
                    ) by {
                        if k < i {
                            assert(names.contains(seen[k].gallery));
                        }
                    }
                }
            } else {
                assert(at < list.len() ==> names[at as int] == list@[at as int]@);
                list.insert(at, name);
                proof {
                    let after = list@.map_values(|name: &str| name@);
                    assert(after =~= names.insert(at as int, name@));
                    lemma_insert_keeps_order(names, at as int, name@);
                    assert forall|m: int| 0 <= m < after.len() implies has_gallery(
                        next,
                        #[trigger] after[m],
                    ) by {
                        if m == at {
                            assert(next[i as int].gallery == after[m]);
                        } else {
                            let n = if m < at {
                                m
                            } else {
                                m - 1
                            };
                            assert(after[m] == names[n]);
                            assert(has_gallery(seen, names[n]));
                            let k = choose|k: int|
                                0 <= k < seen.len() && #[trigger] seen[k].gallery == names[n];
                            assert(next[k].gallery == names[n]);
                        }
                    }
                    assert forall|k: int| 0 <= k < next.len() implies after.contains(
                        (#[trigger] next[k]).gallery,
                    ) by {
                        if k < i {
                            assert(names.contains(seen[k].gallery));
                            let n = choose|n: int|
                                0 <= n < names.len() && names[n] == seen[k].gallery;
                            let m = if n < at {
                                n
                            } else {
                                n + 1
                            };
                            assert(after[m] == names[n]);
                        } else {
                            assert(after[at as int] == name@);
                        }
                    }
                }
            }
            i += 1;
        }
        assert(self@.take(self.rows.len() as int) =~= self@);
        list
    }

    /// What a query shows of the gallery `gallery`: its rows in the order of
    /// the catalog.
    pub fn gallery_contents(&self, gallery: &str) -> (contents: Vec<RowView>)
        ensures
            contents@.map_values(|view: RowView| view@) == contents_of(self@, gallery@),
    {
        let key = String::from_str(gallery);
        let mut contents: Vec<RowView> = Vec::new();
        let ghost chosen = |e: Entry| e.gallery == gallery@;
        let mut i: usize = 0;
        proof {
            reveal(Seq::filter);
            assert(self@.take(0) =~= Seq::<Entry>::empty());
            assert(contents@.map_values(|view: RowView| view@) =~= contents_of(
                self@.take(0),
                gallery@,
            ));
        }
        while i < self.rows.len()
            invariant
                i <= self.rows.len(),
                key@ == gallery@,
                chosen == (|e: Entry| e.gallery == gallery@),
                contents@.map_values(|view: RowView| view@) == self@.take(i as int).filter(
                    chosen,
                ).map_values(|e: Entry| e.listing()),
            decreases self.rows.len() - i,
        {
            let row = &self.rows[i];
            proof {
                reveal(Seq::filter);
                assert(self@.take(i + 1).drop_last() =~= self@.take(i as int));
                assert(self@.take(i + 1).last() == row@);
            }
            let ghost before = contents@.map_values(|view: RowView| view@);
            if row.gallery == key {
                contents.push(
                    RowView {
                        thumbnail_path: row.thumbnail_path.as_str(),
                        webview_path: row.webview_path.as_str(),
                        original_path: row.original_path.as_str(),
                    },
                );
                assert(contents@.map_values(|view: RowView| view@) =~= before.push(row@.listing()));
                assert(self@.take(i + 1).filter(chosen).map_values(|e: Entry| e.listing())
                    =~= before.push(row@.listing()));
            }
            i += 1;
        }
        assert(self@.take(self.rows.len() as int) =~= self@);
        contents
    }
}

} // verus!
