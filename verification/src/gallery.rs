//! The gallery: its catalog, and the steps by which an image is added,
//! looked up and removed and a directory is brought in line with the catalog.
//!
//! The gallery itself touches no file. Its steps take what was read from disk
//! and say what is to be written or removed; the caller does that and hands
//! back what came of it. A row is put into the catalog only once its
//! derivatives are written.

use vstd::prelude::*;
use vstd::string::StringExecFns;
use crate::config::converted_file;
use crate::config::photo_file;
use crate::config::Config;
use crate::digest::content_hash;
use crate::digest::file_md5;
use crate::error::error;
use crate::error::CommandError;
use crate::error::Failure;
use crate::image_table::lemma_position;
use crate::image_table::position;
use crate::image_table::put;
use crate::image_table::tracks;
use crate::image_table::well_formed;
use crate::image_table::without;
use crate::image_table::Entry;
use crate::image_table::ImageTable;
use crate::image_table::Row;
use crate::orientation::open_with_exif_rotation;
use crate::paths::extension;
use crate::paths::extension_of;
use crate::paths::file_name;
use crate::paths::is_heic;
use crate::paths::is_heic_extension;
use crate::paths::is_image_path;
use crate::paths::is_recognized;
use crate::paths::is_recognized_filename;
use crate::paths::is_under;
use crate::paths::lies_under;
use crate::picture::jpeg_encoding;
use crate::picture::write_jpeg;
use crate::picture::Image;
use crate::picture::Picture;
use crate::text::to_lower_hex;
use crate::thumbnail::generate_thumbnail;
use crate::thumbnail::generate_webview;

verus! {

/// Where the bytes to decode for a row are found.
#[derive(Debug)]
pub enum Original {
    /// In the original itself.
    Direct,
    /// In the file `output`, once the converter has written it from the
    /// original. A file left there by an earlier run is to be removed first.
    Convert { output: String },
}

/// The two derivatives of an image as JPEG files, and where they belong.
#[derive(Debug)]
pub struct Derivatives {
    pub thumbnail_file: String,
    pub thumbnail: Vec<u8>,
    pub webview_file: String,
    pub webview: Vec<u8>,
}

/// Whether `file` is the thumbnail of `picture` as a JPEG file.
pub open spec fn is_thumbnail_file(file: Seq<u8>, picture: Image) -> bool {
    file == jpeg_encoding(
        picture.thumbnail().width,
        picture.thumbnail().height,
        picture.thumbnail().pixels,
    )
}

/// Whether `file` is a web view of `picture` as a JPEG file: the file of an
/// image that has the size of the web view of `picture`.
pub open spec fn is_webview_file(file: Seq<u8>, picture: Image) -> bool {
    exists|view: Image|
        #[trigger] view.is_webview_of(picture) && file == jpeg_encoding(
            view.width,
            view.height,
            view.pixels,
        )
}

/// The two derivatives of `picture` as JPEG files: first the thumbnail, then
/// the web view of the whole picture. Fails only for a picture of which no
/// thumbnail or no web view can be made: one of more pixels than memory
/// holds.
pub fn render(picture: &Picture) -> (r: Result<(Vec<u8>, Vec<u8>), CommandError>)
    requires
        picture@.wf(),
    ensures
        match r {
            Ok((thumbnail, webview)) => {
                &&& picture@.can_thumbnail() && picture@.can_webview()
                &&& is_thumbnail_file(thumbnail@, picture@)
                &&& is_webview_file(webview@, picture@)
            },
            Err(e) => !(picture@.can_thumbnail() && picture@.can_webview()) && e@
                == Failure::ImageError("image is too large"@),
        },
{
    let small = match generate_thumbnail(picture) {
        Ok(small) => small,
        Err(e) => {
            return Err(e);
        },
    };
    let view = match generate_webview(picture) {
        Ok(view) => view,
        Err(e) => {
            return Err(e);
        },
    };
    // A thumbnail and a web view have pixels and sides that a JPEG file
    // records, so neither of the two files can fail to be written.
    let thumbnail = match write_jpeg(&small) {
        Ok(thumbnail) => thumbnail,
        Err(words) => {
            return Err(CommandError::ImageError(words));
        },
    };
    match write_jpeg(&view) {
        Ok(webview) => Ok((thumbnail, webview)),
        Err(words) => Err(CommandError::ImageError(words)),
    }
}

/// Whether the converter has done its work: it must both report success and
/// have written its output, for it is known to report success without.
pub fn conversion_done(exit_success: bool, output_exists: bool) -> (r: Result<(), CommandError>)
    ensures
        match r {
            Ok(_) => exit_success && output_exists,
            Err(e) => !(exit_success && output_exists) && e@ == Failure::Other(
                "could not convert HEIC to JPEG."@,
            ),
        },
{
    if exit_success && output_exists {
        Ok(())
    } else {
        Err(error("could not convert HEIC to JPEG."))
    }
}

impl Row {
    /// Where the bytes to decode for this row are found, for a gallery that
    /// keeps its files in `dir`: in the original, or for an original with the
    /// extension `heic` in a file into which it is to be converted. Fails for
    /// a file name without an extension.
    pub fn open_original(&self, dir: &str) -> (r: Result<Original, CommandError>)
        ensures
            match r {
                Ok(Original::Direct) => extension(file_name(self@.original_path)) matches Some(e)
                    && !is_heic(e),
                Ok(Original::Convert { output }) => {
                    &&& extension(file_name(self@.original_path)) matches Some(e) && is_heic(e)
                    &&& output@ == converted_file(dir@, self@.md5)
                },
                Err(e) => {
                    &&& extension(file_name(self@.original_path)) is None
                    &&& e@ == Failure::Other("filename has no extension"@)
                },
            },
    {
        match extension_of(self.original_path.as_str()) {
            Some(e) => {
                if is_heic_extension(e.as_str()) {
                    let hex = to_lower_hex(self.md5);
                    let output = String::from_str(dir).concat("/converted/").concat(
                        hex.as_str(),
                    ).concat("-converted.jpg");
                    Ok(Original::Convert { output })
                } else {
                    Ok(Original::Direct)
                }
            },
            None => Err(error("filename has no extension")),
        }
    }

    /// The derivatives of this row, made of the image file `source`: the
    /// original, or what it was converted to. Both are made of the one
    /// picture that the file decodes to: the thumbnail of its part of four by
    /// three, the web view of the whole of it. Fails with `ImageError` where
    /// the file cannot be decoded or the image is too large.
    pub fn generate_jpegs(&self, config: &Config, source: &[u8]) -> (r: Result<
        Derivatives,
        CommandError,
    >)
        ensures
            match r {
                Ok(made) => {
                    &&& made.thumbnail_file@ == photo_file(config.data_dir@, self@.thumbnail_path)
                    &&& made.webview_file@ == photo_file(config.data_dir@, self@.webview_path)
                    &&& exists|picture: Image|
                        {
                            &&& picture.wf()
                            &&& #[trigger] is_thumbnail_file(made.thumbnail@, picture)
                            &&& is_webview_file(made.webview@, picture)
                        }
                },
                Err(e) => e@ is ImageError,
            },
    {
        let picture = match open_with_exif_rotation(source) {
            Ok(picture) => picture,
            Err(e) => {
                return Err(e);
            },
        };
        match render(&picture) {
            Ok((thumbnail, webview)) => {
                let made = Derivatives {
                    thumbnail_file: config.photo_path(self.thumbnail_path.as_str()),
                    thumbnail,
                    webview_file: config.photo_path(self.webview_path.as_str()),
                    webview,
                };
                assert(picture@.wf() && is_thumbnail_file(
                    made.thumbnail@,
                    picture@,
                ) && is_webview_file(made.webview@, picture@));
                Ok(made)
            },
            Err(e) => Err(e),
        }
    }
}

/// What adding the image at `path`, whose content has identity `md5`, asks
/// for: nothing where the image is tracked with that identity, else the entry
/// to make derivatives for and then to put into the catalog.
pub open spec fn staged(entries: Seq<Entry>, path: Seq<char>, md5: nat) -> Option<Entry> {
    if !tracks(entries, path) {
        Some(Entry::of(path, md5))
    } else if entries[position(entries, path)].md5 == md5 {
        None
    } else {
        Some(entries[position(entries, path)].with_md5(md5))
    }
}

/// Whether the image at `path` can be added: it is tracked, or a title and a
/// gallery can be read off its path.
pub open spec fn can_add(entries: Seq<Entry>, path: Seq<char>) -> bool {
    tracks(entries, path) || is_image_path(path)
}

/// The catalog after the image at `path`, whose content has identity `md5`,
/// was added and its derivatives were written.
pub open spec fn added(entries: Seq<Entry>, path: Seq<char>, md5: nat) -> Seq<Entry> {
    match staged(entries, path, md5) {
        Some(entry) => put(entries, entry),
        None => entries,
    }
}

/// What a look at an image in the catalog finds.
#[derive(Clone, Copy, Debug, PartialEq, Eq, Structural)]
pub enum Status {
    /// The image is not tracked.
    Absent,
    /// The image is tracked, with another content than it has now.
    Changed,
    /// The image is tracked as it is.
    Present,
}

/// What `stat` finds for the image at `path` whose content has identity
/// `md5`.
pub open spec fn status_of(entries: Seq<Entry>, path: Seq<char>, md5: nat) -> Status {
    if !tracks(entries, path) {
        Status::Absent
    } else if entries[position(entries, path)].md5 == md5 {
        Status::Present
    } else {
        Status::Changed
    }
}

impl Status {
    /// The sentence in which the finding is reported.
    pub open spec fn text(self) -> Seq<char> {
        match self {
            Status::Absent => "Nothing is in the gallery with this path."@,
            Status::Changed => "The image in gallery at this path has a different md5 sum."@,
            Status::Present => "The image is in the gallery."@,
        }
    }

    /// The sentence in which the finding is reported.
    pub fn message(&self) -> (words: &'static str)
        ensures
            words@ == self.text(),
    {
        match self {
            Status::Absent => "Nothing is in the gallery with this path.",
            Status::Changed => "The image in gallery at this path has a different md5 sum.",
            Status::Present => "The image is in the gallery.",
        }
    }
}

/// The files to remove for a row that has left the catalog.
#[derive(Debug)]
pub struct Removal {
    pub original_path: String,
    pub thumbnail_file: String,
    pub webview_file: String,
}

/// The files to remove, as contracts speak of them.
pub struct Removed {
    pub original_path: Seq<char>,
    pub thumbnail_file: Seq<char>,
    pub webview_file: Seq<char>,
}

impl View for Removal {
    type V = Removed;

    open spec fn view(&self) -> Removed {
        Removed {
            original_path: self.original_path@,
            thumbnail_file: self.thumbnail_file@,
            webview_file: self.webview_file@,
        }
    }
}

/// The files to remove for `entry` in a gallery that keeps its files in
/// `data_dir`: both derivatives.
pub open spec fn removal_of(data_dir: Seq<char>, entry: Entry) -> Removed {
    Removed {
        original_path: entry.original_path,
        thumbnail_file: photo_file(data_dir, entry.thumbnail_path),
        webview_file: photo_file(data_dir, entry.webview_path),
    }
}

/// A catalog and the places of its files.
#[derive(Debug)]
pub struct SimplePhotoGallery {
    pub image_table: ImageTable,
    pub config: Config,
}

impl SimplePhotoGallery {
    /// The gallery that keeps its files in `data_dir` and has the catalog
    /// `image_table`.
    pub fn new(data_dir: String, image_table: ImageTable) -> (gallery: SimplePhotoGallery)
        ensures
            gallery.image_table == image_table,
            gallery.config.data_dir@ == data_dir@,
            gallery.config.image_table_path@ == crate::config::image_table_file(data_dir@),
    {
        SimplePhotoGallery { image_table, config: Config::new(data_dir) }
    }

    /// The files to remove for `row`.
    fn removal(&self, row: &Row) -> (gone: Removal)
        ensures
            gone@ == removal_of(self.config.data_dir@, row@),
    {
        Removal {
            original_path: row.original_path.clone(),
            thumbnail_file: self.config.photo_path(row.thumbnail_path.as_str()),
            webview_file: self.config.photo_path(row.webview_path.as_str()),
        }
    }

    /// The first step of adding the image at `original_path`, a canonical
    /// path, whose file holds `content`. Where the image is tracked with this
    /// content there is nothing to do. Else the result is the row to make
    /// derivatives for, and to hand to `add` once they are written. Fails for
    /// an image that is not tracked where its path does not name a file in a
    /// named directory. The catalog stays as it is.
    pub fn stage(&self, original_path: String, content: &[u8]) -> (r: Result<
        Option<Row>,
        CommandError,
    >)
        ensures
            match r {
                Ok(Some(row)) => can_add(self.image_table@, original_path@) && Some(row@)
                    == staged(self.image_table@, original_path@, content_hash(content@)),
                Ok(None) => can_add(self.image_table@, original_path@) && staged(
                    self.image_table@,
                    original_path@,
                    content_hash(content@),
                ) is None,
                Err(e) => !can_add(self.image_table@, original_path@) && e@ == Failure::Other(
                    "path does not name a file in a directory"@,
                ),
            },
    {
        proof {
            lemma_position(self.image_table@, original_path@);
        }
        match self.image_table.find(original_path.as_str()) {
            Some(i) => {
                let mut row = self.image_table.rows[i].duplicate();
                if row.update(content) {
                    Ok(Some(row))
                } else {
                    Ok(None)
                }
            },
            None => match Row::new(original_path, content) {
                Ok(row) => Ok(Some(row)),
                Err(e) => Err(e),
            },
        }
    }

    /// The last step of adding an image: puts `row` into the catalog, in
    /// place of the row of the same image or, where there is none, at the
    /// end. A catalog that was well formed stays so if the row is. The
    /// derivatives of a row that is replaced are not named for removal: the
    /// row of another image with the same content would name the same files.
    pub fn add(&mut self, row: Row)
        ensures
            final(self).image_table@ == put(old(self).image_table@, row@),
            final(self).config == old(self).config,
            well_formed(old(self).image_table@) && row@.wf() ==> well_formed(
                final(self).image_table@,
            ),
    {
        proof {
            lemma_position(self.image_table@, row@.original_path);
            if well_formed(self.image_table@) && row@.wf() {
                lemma_put_well_formed(self.image_table@, row@);
            }
        }
        let ghost before = self.image_table@;
        match self.image_table.find(row.original_path.as_str()) {
            Some(i) => {
                self.image_table.rows[i] = row;
                assert(self.image_table@ =~= before.update(i as int, row@));
            },
            None => {
                self.image_table.rows.push(row);
                assert(self.image_table@ =~= before.push(row@));
            },
        }
    }

    /// What the catalog knows of the image at `path`, a canonical path,
    /// whose file holds `content`.
    pub fn stat(&self, path: &str, content: &[u8]) -> (status: Status)
        ensures
            status == status_of(self.image_table@, path@, content_hash(content@)),
    {
        proof {
            lemma_position(self.image_table@, path@);
        }
        match self.image_table.find(path) {
            None => Status::Absent,
            Some(i) => {
                if file_md5(content) != self.image_table.rows[i].md5 {
                    Status::Changed
                } else {
                    Status::Present
                }
            },
        }
    }

    /// Removes the row of the image at `path`, a canonical path, and says
    /// which files to remove with it. Fails for an image that is not tracked,
    /// and leaves the catalog as it is.
    pub fn rm(&mut self, path: &str) -> (r: Result<Removal, CommandError>)
        ensures
            final(self).config == old(self).config,
            final(self).image_table@ == without(old(self).image_table@, path@),
            match r {
                Ok(gone) => tracks(old(self).image_table@, path@) && gone@ == removal_of(
                    old(self).config.data_dir@,
                    old(self).image_table@[position(old(self).image_table@, path@)],
                ),
                Err(e) => {
                    &&& !tracks(old(self).image_table@, path@)
                    &&& final(self).image_table == old(self).image_table
                    &&& e@ == Failure::Other("file is not in database"@)
                },
            },
    {
        proof {
            lemma_position(self.image_table@, path@);
        }
        let ghost before = self.image_table@;
        match self.image_table.find(path) {
            Some(i) => {
                let row = self.image_table.rows.remove(i);
                assert(self.image_table@ =~= before.remove(i as int));
                Ok(self.removal(&row))
            },
            None => Err(error("file is not in database")),
        }
    }
}

/// Putting a well-formed entry into a well-formed catalog leaves it well
/// formed.
pub proof fn lemma_put_well_formed(entries: Seq<Entry>, entry: Entry)
    requires
        well_formed(entries),
        entry.wf(),
    ensures
        well_formed(put(entries, entry)),
{
    lemma_position(entries, entry.original_path);
    let after = put(entries, entry);
    if tracks(entries, entry.original_path) {
        let p = position(entries, entry.original_path);
        assert forall|i: int, j: int| 0 <= i < j < after.len() implies #[trigger] after[i].original_path
            != #[trigger] after[j].original_path by {
            assert(after[i].original_path == entries[i].original_path);
            assert(after[j].original_path == entries[j].original_path);
        }
        assert forall|i: int| 0 <= i < after.len() implies (#[trigger] after[i]).wf() by {
            if i != p {
                assert(entries[i].wf());
            }
        }
    } else {
        assert forall|i: int, j: int| 0 <= i < j < after.len() implies #[trigger] after[i].original_path
            != #[trigger] after[j].original_path by {
            if j < entries.len() {
                assert(after[i].original_path == entries[i].original_path);
                assert(after[j].original_path == entries[j].original_path);
            } else {
                assert(entries[i].original_path != entry.original_path);
            }
        }
        assert forall|i: int| 0 <= i < after.len() implies (#[trigger] after[i]).wf() by {
            if i < entries.len() {
                assert(entries[i].wf());
            }
        }
    }
}

/// The paths among `paths` that a scan takes up, in their order.
pub fn recognized_files(paths: Vec<String>) -> (found: Vec<String>)
    ensures
        found@.map_values(|p: String| p@) == paths@.map_values(|p: String| p@).filter(
            |p: Seq<char>| is_recognized(p),
        ),
{
    let ghost all = paths@.map_values(|p: String| p@);
    let ghost taken = |p: Seq<char>| is_recognized(p);
    let mut found: Vec<String> = Vec::new();
    proof {
        reveal(Seq::filter);
        assert(all.take(0) =~= Seq::<Seq<char>>::empty());
        assert(found@.map_values(|p: String| p@) =~= all.take(0).filter(taken));
    }
    for path in it: paths
        invariant
            it.seq() == paths@,
            all == paths@.map_values(|p: String| p@),
            taken == (|p: Seq<char>| is_recognized(p)),
            found@.map_values(|p: String| p@) == all.take(it.index() as int).filter(taken),
    {
        let ghost before = found@.map_values(|p: String| p@);
        let ghost i = it.index() as int;
        proof {
            reveal(Seq::filter);
            assert(all.take(i + 1).drop_last() =~= all.take(i));
            assert(all.take(i + 1).last() == path@);
        }
        if is_recognized_filename(path.as_str()) {
            found.push(path);
            assert(found@.map_values(|p: String| p@) =~= before.push(path@));
        }
    }
    assert(all.take(paths@.len() as int) =~= all);
    found
}

/// Whether `text` is among `list`.
fn holds(list: &Vec<String>, text: &String) -> (r: bool)
    ensures
        r == list@.map_values(|p: String| p@).contains(text@),
{
    let ghost all = list@.map_values(|p: String| p@);
    let mut i: usize = 0;
    while i < list.len()
        invariant
            i <= list.len(),
            all == list@.map_values(|p: String| p@),
            forall|k: int| 0 <= k < i ==> all[k] != text@,
        decreases list.len() - i,
    {
        if list[i] == *text {
            assert(all[i as int] == text@);
            return true;
        }
        i += 1;
    }
    false
}

/// Whether a scan of `root` that saw the images at `seen` leaves `entry`
/// behind: its image lies under the root and was not seen.
pub open spec fn is_stale(entry: Entry, root: Seq<char>, seen: Seq<Seq<char>>) -> bool {
    lies_under(entry.original_path, root) && !seen.contains(entry.original_path)
}

/// The entries that a scan leaves behind, in the order of the catalog.
pub open spec fn stale(entries: Seq<Entry>, root: Seq<char>, seen: Seq<Seq<char>>) -> Seq<Entry> {
    entries.filter(|e: Entry| is_stale(e, root, seen))
}

/// The catalog without the entries that a scan leaves behind.
pub open spec fn swept(entries: Seq<Entry>, root: Seq<char>, seen: Seq<Seq<char>>) -> Seq<Entry> {
    entries.filter(|e: Entry| !is_stale(e, root, seen))
}

impl SimplePhotoGallery {
    /// The last step of bringing the catalog in line with the directory
    /// `root`, after every image found there was added: `seen` holds the
    /// paths of those for which that went well. Removes the rows of the
    /// images under `root` that are not among them, and says, in the order of
    /// the catalog, which files to remove with each.
    pub fn add_remove_path(&mut self, root: &str, seen: &Vec<String>) -> (gone: Vec<Removal>)
        ensures
            final(self).config == old(self).config,
            final(self).image_table@ == swept(
                old(self).image_table@,
                root@,
                seen@.map_values(|p: String| p@),
            ),
            gone@.map_values(|g: Removal| g@) == stale(
                old(self).image_table@,
                root@,
                seen@.map_values(|p: String| p@),
            ).map_values(|e: Entry| removal_of(old(self).config.data_dir@, e)),
    {
        let ghost before = self.image_table@;
        let ghost paths = seen@.map_values(|p: String| p@);
        let ghost dir = self.config.data_dir@;
        let ghost leaves = |e: Entry| is_stale(e, root@, paths);
        let ghost stays = |e: Entry| !is_stale(e, root@, paths);
        let mut rows: Vec<Row> = Vec::new();
        std::mem::swap(&mut rows, &mut self.image_table.rows);
        let mut gone: Vec<Removal> = Vec::new();
        proof {
            reveal(Seq::filter);
            assert(before.take(0) =~= Seq::<Entry>::empty());
            assert(self.image_table@ =~= before.take(0).filter(stays));
            assert(gone@.map_values(|g: Removal| g@) =~= before.take(0).filter(leaves).map_values(
                |e: Entry| removal_of(dir, e),
            ));
        }
        for row in it: rows
            invariant
                it.seq() == rows@,
                before == rows@.map_values(|row: Row| row@),
                paths == seen@.map_values(|p: String| p@),
                dir == self.config.data_dir@,
                self.config == old(self).config,
                leaves == (|e: Entry| is_stale(e, root@, paths)),
                stays == (|e: Entry| !is_stale(e, root@, paths)),
                self.image_table@ == before.take(it.index() as int).filter(stays),
                gone@.map_values(|g: Removal| g@) == before.take(it.index() as int).filter(
                    leaves,
                ).map_values(|e: Entry| removal_of(dir, e)),
        {
            let ghost i = it.index() as int;
            let ghost kept = self.image_table@;
            let ghost left = gone@.map_values(|g: Removal| g@);
            proof {
                reveal(Seq::filter);
                assert(before.take(i + 1).drop_last() =~= before.take(i));
                assert(before.take(i + 1).last() == row@);
            }
            if is_under(row.original_path.as_str(), root) && !holds(seen, &row.original_path) {
                let removal = self.removal(&row);
                gone.push(removal);
                assert(gone@.map_values(|g: Removal| g@) =~= left.push(removal_of(dir, row@)));
                assert(before.take(i + 1).filter(leaves).map_values(
                    |e: Entry| removal_of(dir, e),
                ) =~= left.push(removal_of(dir, row@)));
            } else {
                self.image_table.rows.push(row);
                assert(self.image_table@ =~= kept.push(row@));
            }
        }
        assert(before.take(rows@.len() as int) =~= before);
        gone
    }
}

} // verus!
