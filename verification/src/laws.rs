//! What holds of the steps of the gallery, whatever the catalog holds and
//! whatever is on disk.

use vstd::prelude::*;
use crate::gallery::added;
use crate::gallery::can_add;
use crate::config::photo_file;
use crate::gallery::is_stale;
use crate::gallery::removal_of;
use crate::gallery::staged;
use crate::gallery::stale;
use crate::gallery::swept;
use crate::image_table::distinct;
use crate::image_table::is_first;
use crate::image_table::lemma_names_differ;
use crate::image_table::lemma_position;
use crate::image_table::position;
use crate::image_table::thumbnail_name;
use crate::image_table::tracks;
use crate::image_table::webview_name;
use crate::image_table::without;
use crate::image_table::Entry;
use crate::paths::is_image_path;
use crate::paths::lies_under;

verus! {

/// What is kept of a catalog was in it and meets the condition, what meets
/// the condition is kept, and what is kept of a catalog with one entry for
/// each image has one entry for each image.
proof fn lemma_filter(s: Seq<Entry>, pred: spec_fn(Entry) -> bool)
    ensures
        forall|i: int|
            0 <= i < s.filter(pred).len() ==> pred(#[trigger] s.filter(pred)[i]) && s.contains(
                s.filter(pred)[i],
            ),
        forall|i: int| 0 <= i < s.len() && pred(s[i]) ==> s.filter(pred).contains(#[trigger] s[i]),
        distinct(s) ==> distinct(s.filter(pred)),
    decreases s.len(),
{
    reveal(Seq::filter);
    if s.len() > 0 {
        let front = s.drop_last();
        let kept = front.filter(pred);
        let all = s.filter(pred);
        lemma_filter(front, pred);
        assert forall|i: int| 0 <= i < all.len() implies pred(#[trigger] all[i]) && s.contains(
            all[i],
        ) by {
            if i < kept.len() {
                assert(all[i] == kept[i]);
                assert(front.contains(kept[i]));
                let k = choose|k: int| 0 <= k < front.len() && front[k] == kept[i];
                assert(s[k] == all[i]);
            } else {
                assert(all[i] == s[s.len() - 1]);
            }
        }
        assert forall|i: int| 0 <= i < s.len() && pred(s[i]) implies all.contains(
            #[trigger] s[i],
        ) by {
            if i < front.len() {
                assert(front[i] == s[i]);
                assert(kept.contains(front[i]));
                let k = choose|k: int| 0 <= k < kept.len() && kept[k] == front[i];
                assert(all[k] == s[i]);
            } else {
                assert(all[all.len() - 1] == s[i]);
            }
        }
        if distinct(s) {
            assert(distinct(front)) by {
                assert forall|i: int, j: int| 0 <= i < j < front.len() implies #[trigger] front[i].original_path
                    != #[trigger] front[j].original_path by {
                    assert(s[i].original_path != s[j].original_path);
                }
            }
            assert forall|i: int, j: int| 0 <= i < j < all.len() implies #[trigger] all[i].original_path
                != #[trigger] all[j].original_path by {
                if j < kept.len() {
                    assert(kept[i].original_path != kept[j].original_path);
                } else {
                    assert(all[i] == kept[i]);
                    assert(front.contains(kept[i]));
                    let k = choose|k: int| 0 <= k < front.len() && front[k] == kept[i];
                    assert(s[k].original_path != s[s.len() - 1].original_path);
                }
            }
        }
    }
}

/// An image is tracked exactly where the catalog holds an entry with its
/// path.
proof fn lemma_tracks(entries: Seq<Entry>, path: Seq<char>)
    ensures
        tracks(entries, path) <==> exists|e: Entry|
            entries.contains(e) && e.original_path == path,
{
    if tracks(entries, path) {
        let i = choose|i: int| 0 <= i < entries.len() && #[trigger] entries[i].original_path
            == path;
        assert(entries.contains(entries[i]));
    }
    if exists|e: Entry| entries.contains(e) && e.original_path == path {
        let e = choose|e: Entry| entries.contains(e) && e.original_path == path;
        let i = choose|i: int| 0 <= i < entries.len() && entries[i] == e;
        assert(entries[i].original_path == path);
    }
}

/// Where a catalog changes only in the entries of the image at `path`, every
/// other image is tracked as before, with the entry that it had.
proof fn lemma_others_kept(entries: Seq<Entry>, after: Seq<Entry>, path: Seq<char>)
    requires
        entries.len() <= after.len(),
        forall|k: int|
            0 <= k < entries.len() ==> #[trigger] after[k].original_path
                == entries[k].original_path,
        forall|k: int|
            0 <= k < entries.len() && entries[k].original_path != path ==> #[trigger] after[k]
                == entries[k],
        forall|k: int| entries.len() <= k < after.len() ==> #[trigger] after[k].original_path == path,
    ensures
        forall|other: Seq<char>|
            #![trigger tracks(after, other)]
            other != path ==> (tracks(after, other) <==> tracks(entries, other)),
        forall|other: Seq<char>|
            #![trigger position(after, other)]
            other != path && tracks(entries, other) ==> after[position(after, other)]
                == entries[position(entries, other)],
{
    assert forall|other: Seq<char>| other != path implies (tracks(after, other) <==> tracks(
        entries,
        other,
    )) && (tracks(entries, other) ==> after[position(after, other)] == entries[position(
        entries,
        other,
    )]) by {
        lemma_position(entries, other);
        lemma_position(after, other);
        if tracks(entries, other) {
            let q = position(entries, other);
            assert(after[q].original_path == other);
            assert(is_first(after, other, q)) by {
                assert forall|k: int| 0 <= k < q implies #[trigger] after[k].original_path
                    != other by {
                    assert(entries[k].original_path != other);
                }
            }
            assert(after[q] == entries[q]);
        }
        if tracks(after, other) {
            let q = position(after, other);
            assert(q < entries.len());
            assert(entries[q].original_path == other);
        }
    }
}

/// Adding an image makes it tracked with the identity of its content and the
/// names that go with it, and leaves every other image as it was. A catalog
/// with one entry for each image stays one.
pub proof fn lemma_added(entries: Seq<Entry>, path: Seq<char>, md5: nat)
    requires
        can_add(entries, path),
    ensures
        tracks(added(entries, path, md5), path),
        added(entries, path, md5)[position(added(entries, path, md5), path)].md5 == md5,
        staged(entries, path, md5) is Some ==> {
            let entry = added(entries, path, md5)[position(added(entries, path, md5), path)];
            entry.thumbnail_path == thumbnail_name(md5) && entry.webview_path == webview_name(md5)
        },
        forall|other: Seq<char>|
            #![trigger tracks(added(entries, path, md5), other)]
            other != path ==> (tracks(added(entries, path, md5), other) <==> tracks(
                entries,
                other,
            )),
        forall|other: Seq<char>|
            #![trigger position(added(entries, path, md5), other)]
            other != path && tracks(entries, other) ==> added(entries, path, md5)[position(
                added(entries, path, md5),
                other,
            )] == entries[position(entries, other)],
        distinct(entries) ==> distinct(added(entries, path, md5)),
{
    let after = added(entries, path, md5);
    lemma_position(entries, path);
    let p = if tracks(entries, path) {
        position(entries, path)
    } else {
        entries.len() as int
    };
    assert(after[p].original_path == path);
    assert(is_first(after, path, p)) by {
        assert forall|k: int| 0 <= k < p implies #[trigger] after[k].original_path != path by {
            assert(entries[k].original_path != path);
        }
    }
    lemma_position(after, path);
    lemma_others_kept(entries, after, path);
    if distinct(entries) {
        assert forall|i: int, j: int| 0 <= i < j < after.len() implies #[trigger] after[i].original_path
            != #[trigger] after[j].original_path by {
            if j < entries.len() {
                assert(entries[i].original_path != entries[j].original_path);
            } else {
                assert(entries[i].original_path != path);
            }
        }
    }
}

/// Adding an image a second time, its content unchanged, asks for no
/// derivatives and leaves the catalog, and with it the identity and the names
/// of the derivatives, as the first time left them.
pub proof fn lemma_add_twice(entries: Seq<Entry>, path: Seq<char>, md5: nat)
    requires
        can_add(entries, path),
    ensures
        staged(added(entries, path, md5), path, md5) is None,
        added(added(entries, path, md5), path, md5) == added(entries, path, md5),
{
    lemma_added(entries, path, md5);
}

/// Adding a tracked image whose content has changed asks for new derivatives,
/// under the names that go with the new identity, and the catalog then holds
/// that identity and those names.
pub proof fn lemma_add_changed(entries: Seq<Entry>, path: Seq<char>, md5: nat)
    requires
        tracks(entries, path),
        entries[position(entries, path)].md5 != md5,
    ensures
        staged(entries, path, md5) == Some(entries[position(entries, path)].with_md5(md5)),
        added(entries, path, md5)[position(added(entries, path, md5), path)]
            == entries[position(entries, path)].with_md5(md5),
        entries[position(entries, path)].with_md5(md5).md5 == md5,
        entries[position(entries, path)].with_md5(md5).thumbnail_path == thumbnail_name(md5),
        entries[position(entries, path)].with_md5(md5).webview_path == webview_name(md5),
{
    lemma_position(entries, path);
    let p = position(entries, path);
    let after = added(entries, path, md5);
    assert(after[p].original_path == path);
    assert(is_first(after, path, p)) by {
        assert forall|k: int| 0 <= k < p implies #[trigger] after[k].original_path != path by {
            assert(entries[k].original_path != path);
        }
    }
    lemma_position(after, path);
}

/// Removing an image from a catalog with one entry for each image leaves it
/// untracked and every other image as it was; removing an image that is not
/// tracked leaves the catalog as it was.
pub proof fn lemma_without(entries: Seq<Entry>, path: Seq<char>)
    requires
        distinct(entries),
    ensures
        !tracks(without(entries, path), path),
        !tracks(entries, path) ==> without(entries, path) == entries,
        tracks(entries, path) ==> without(entries, path).len() + 1 == entries.len(),
        forall|other: Seq<char>|
            #![trigger tracks(without(entries, path), other)]
            other != path ==> (tracks(without(entries, path), other) <==> tracks(entries, other)),
        forall|other: Seq<char>|
            other != path && tracks(entries, other) ==> without(entries, path)[position(
                without(entries, path),
                other,
            )] == entries[position(entries, other)],
        distinct(without(entries, path)),
{
    let after = without(entries, path);
    lemma_position(entries, path);
    if tracks(entries, path) {
        let p = position(entries, path);
        assert forall|k: int| 0 <= k < after.len() implies #[trigger] after[k] == entries[if k
            < p {
            k
        } else {
            k + 1
        }] by {}
        assert(!tracks(after, path)) by {
            if tracks(after, path) {
                let k = choose|k: int| 0 <= k < after.len() && #[trigger] after[k].original_path
                    == path;
                let j = if k < p {
                    k
                } else {
                    k + 1
                };
                assert(after[k] == entries[j]);
                if j < p {
                    assert(entries[j].original_path != entries[p].original_path);
                } else {
                    assert(entries[p].original_path != entries[j].original_path);
                }
            }
        }
        assert forall|i: int, j: int| 0 <= i < j < after.len() implies #[trigger] after[i].original_path
            != #[trigger] after[j].original_path by {
            let a = if i < p {
                i
            } else {
                i + 1
            };
            let b = if j < p {
                j
            } else {
                j + 1
            };
            assert(after[i] == entries[a] && after[j] == entries[b]);
            assert(entries[a].original_path != entries[b].original_path);
        }
        assert forall|other: Seq<char>| other != path implies (tracks(after, other) <==> tracks(
            entries,
            other,
        )) && (tracks(entries, other) ==> after[position(after, other)] == entries[position(
            entries,
            other,
        )]) by {
            lemma_position(entries, other);
            lemma_position(after, other);
            if tracks(entries, other) {
                let q = position(entries, other);
                let k = if q < p {
                    q
                } else {
                    q - 1
                };
                assert(after[k] == entries[q]);
                assert(is_first(after, other, k)) by {
                    assert forall|m: int| 0 <= m < k implies #[trigger] after[m].original_path
                        != other by {
                        let n = if m < p {
                            m
                        } else {
                            m + 1
                        };
                        assert(after[m] == entries[n]);
                        assert(entries[n].original_path != other);
                    }
                }
            }
            if tracks(after, other) {
                let k = position(after, other);
                let n = if k < p {
                    k
                } else {
                    k + 1
                };
                assert(after[k] == entries[n]);
                assert(entries[n].original_path == other);
            }
        }
    }
}

/// An image that a scan found and added: its path and the identity of its
/// content.
pub struct Found {
    pub path: Seq<char>,
    pub md5: nat,
}

/// The paths of the images found.
pub open spec fn paths_of(found: Seq<Found>) -> Seq<Seq<char>> {
    found.map_values(|f: Found| f.path)
}

/// The catalog after each of the images found was added, one after another.
pub open spec fn added_all(entries: Seq<Entry>, found: Seq<Found>) -> Seq<Entry>
    decreases found.len(),
{
    if found.len() == 0 {
        entries
    } else {
        added(added_all(entries, found.drop_last()), found.last().path, found.last().md5)
    }
}

/// The catalog after a scan of `root` that found the images `found`: each of
/// them added, then the catalog swept.
pub open spec fn synced(entries: Seq<Entry>, root: Seq<char>, found: Seq<Found>) -> Seq<Entry> {
    swept(added_all(entries, found), root, paths_of(found))
}

/// The entries of the images that lie under `root`.
pub open spec fn under(entries: Seq<Entry>, root: Seq<char>) -> Seq<Entry> {
    entries.filter(|e: Entry| lies_under(e.original_path, root))
}

/// Whether a scan of `root` can have found the images `found`: no image
/// twice, each under the root, each with a path off which a title and a
/// gallery can be read.
pub open spec fn is_scan(found: Seq<Found>, root: Seq<char>) -> bool {
    &&& paths_of(found).no_duplicates()
    &&& forall|i: int|
        0 <= i < found.len() ==> is_image_path(#[trigger] found[i].path) && lies_under(
            found[i].path,
            root,
        )
}

/// After the images found were added, an image is tracked where it was
/// tracked before or was found, each image found has the identity with which
/// it was found, and a catalog with one entry for each image is still one.
proof fn lemma_added_all(entries: Seq<Entry>, found: Seq<Found>)
    requires
        distinct(entries),
        paths_of(found).no_duplicates(),
        forall|i: int| 0 <= i < found.len() ==> is_image_path(#[trigger] found[i].path),
    ensures
        distinct(added_all(entries, found)),
        forall|path: Seq<char>|
            #![trigger tracks(added_all(entries, found), path)]
            tracks(added_all(entries, found), path) <==> tracks(entries, path) || paths_of(
                found,
            ).contains(path),
        forall|i: int|
            0 <= i < found.len() ==> added_all(entries, found)[position(
                added_all(entries, found),
                (#[trigger] found[i]).path,
            )].md5 == found[i].md5,
    decreases found.len(),
{
    let all = added_all(entries, found);
    let paths = paths_of(found);
    if found.len() == 0 {
        assert forall|path: Seq<char>| tracks(all, path) <==> tracks(entries, path)
            || paths.contains(path) by {}
    } else {
        let front = found.drop_last();
        let last = found.last();
        let before = added_all(entries, front);
        let n = found.len() - 1;
        assert(paths_of(front) =~= paths.drop_last());
        assert(paths_of(front).no_duplicates()) by {
            assert forall|i: int, j: int|
                0 <= i < paths_of(front).len() && 0 <= j < paths_of(front).len() && i
                    != j implies paths_of(front)[i] != paths_of(front)[j] by {
                assert(paths[i] != paths[j]);
            }
        }
        assert forall|i: int| 0 <= i < front.len() implies is_image_path(
            #[trigger] front[i].path,
        ) by {
            assert(front[i] == found[i]);
        }
        lemma_added_all(entries, front);
        assert(is_image_path(found[n].path));
        lemma_added(before, last.path, last.md5);
        assert(all == added(before, last.path, last.md5));
        assert(paths[n] == last.path);
        assert forall|path: Seq<char>| tracks(all, path) <==> tracks(entries, path)
            || paths.contains(path) by {
            if paths.contains(path) {
                let k = choose|k: int| 0 <= k < paths.len() && paths[k] == path;
                if k < n {
                    assert(paths_of(front)[k] == path);
                }
            }
            if paths_of(front).contains(path) {
                let k = choose|k: int| 0 <= k < paths_of(front).len() && paths_of(front)[k]
                    == path;
                assert(paths[k] == path);
            }
            if path != last.path {
                assert(tracks(added(before, last.path, last.md5), path) <==> tracks(before, path));
                assert(tracks(before, path) <==> tracks(entries, path) || paths_of(
                    front,
                ).contains(path));
            } else {
                assert(tracks(added(before, last.path, last.md5), last.path));
            }
        }
        assert forall|i: int| 0 <= i < found.len() implies all[position(
            all,
            (#[trigger] found[i]).path,
        )].md5 == found[i].md5 by {
            if i < n {
                let path = found[i].path;
                assert(front[i] == found[i]);
                assert(paths[i] == path);
                assert(paths[i] != paths[n]);
                assert(paths_of(front)[i] == path);
                assert(paths_of(front).contains(path));
                assert(tracks(before, path));
                assert(before[position(before, front[i].path)].md5 == front[i].md5);
                assert(added(before, last.path, last.md5)[position(
                    added(before, last.path, last.md5),
                    path,
                )] == before[position(before, path)]);
            }
        }
    }
}

/// After a sweep an image is tracked where it was tracked before and was
/// seen or lies outside the root; a catalog with one entry for each image is
/// still one.
proof fn lemma_swept(entries: Seq<Entry>, root: Seq<char>, seen: Seq<Seq<char>>)
    ensures
        distinct(entries) ==> distinct(swept(entries, root, seen)),
        forall|path: Seq<char>|
            #![trigger tracks(swept(entries, root, seen), path)]
            tracks(swept(entries, root, seen), path) <==> tracks(entries, path) && (
            seen.contains(path) || !lies_under(path, root)),
{
    let stays = |e: Entry| !is_stale(e, root, seen);
    let after = swept(entries, root, seen);
    lemma_filter(entries, stays);
    assert forall|path: Seq<char>| tracks(after, path) <==> tracks(entries, path) && (
    seen.contains(path) || !lies_under(path, root)) by {
        lemma_tracks(after, path);
        lemma_tracks(entries, path);
        if tracks(after, path) {
            let i = choose|i: int| 0 <= i < after.len() && #[trigger] after[i].original_path
                == path;
            assert(stays(after[i]) && entries.contains(after[i]));
        }
        if tracks(entries, path) && (seen.contains(path) || !lies_under(path, root)) {
            let i = choose|i: int| 0 <= i < entries.len() && #[trigger] entries[i].original_path
                == path;
            assert(stays(entries[i]));
            assert(after.contains(entries[i]));
        }
    }
}

/// A sweep keeps every image that was seen or lies outside the root, with the
/// entry that it had.
pub proof fn lemma_sweep_keeps(
    entries: Seq<Entry>,
    root: Seq<char>,
    seen: Seq<Seq<char>>,
    path: Seq<char>,
)
    requires
        distinct(entries),
        tracks(entries, path),
        seen.contains(path) || !lies_under(path, root),
    ensures
        tracks(swept(entries, root, seen), path),
        swept(entries, root, seen)[position(swept(entries, root, seen), path)]
            == entries[position(entries, path)],
{
    let stays = |e: Entry| !is_stale(e, root, seen);
    let after = swept(entries, root, seen);
    lemma_swept(entries, root, seen);
    lemma_filter(entries, stays);
    lemma_position(entries, path);
    lemma_position(after, path);
    let kept = after[position(after, path)];
    assert(entries.contains(kept));
    let k = choose|k: int| 0 <= k < entries.len() && entries[k] == kept;
    let p = position(entries, path);
    if k < p {
        assert(entries[k].original_path != entries[p].original_path);
    } else if p < k {
        assert(entries[p].original_path != entries[k].original_path);
    }
}

/// The entries that a sweep removes are those of the images under the root
/// that were not seen, and with those that it keeps under the root they make
/// up the entries under the root.
pub proof fn lemma_sweep_removes(entries: Seq<Entry>, root: Seq<char>, seen: Seq<Seq<char>>)
    ensures
        forall|i: int|
            0 <= i < stale(entries, root, seen).len() ==> is_stale(
                #[trigger] stale(entries, root, seen)[i],
                root,
                seen,
            ),
        forall|i: int|
            0 <= i < entries.len() && is_stale(entries[i], root, seen) ==> stale(
                entries,
                root,
                seen,
            ).contains(#[trigger] entries[i]),
        stale(entries, root, seen).len() + under(swept(entries, root, seen), root).len() == under(
            entries,
            root,
        ).len(),
    decreases entries.len(),
{
    let leaves = |e: Entry| is_stale(e, root, seen);
    lemma_filter(entries, leaves);
    reveal(Seq::filter);
    if entries.len() > 0 {
        let front = entries.drop_last();
        let last = entries.last();
        lemma_sweep_removes(front, root, seen);
        if !is_stale(last, root, seen) {
            assert(swept(entries, root, seen) == swept(front, root, seen).push(last));
            assert(swept(entries, root, seen).drop_last() =~= swept(front, root, seen));
        }
    }
}

/// The files named for removal with one entry are no derivatives of an entry
/// whose image has another identity: what is removed for an image that is
/// gone takes nothing from an image with another content that stays.
pub proof fn lemma_removal_spares(data_dir: Seq<char>, gone: Entry, kept: Entry)
    requires
        gone.wf(),
        kept.wf(),
        gone.md5 != kept.md5,
    ensures
        removal_of(data_dir, gone).thumbnail_file != photo_file(data_dir, kept.thumbnail_path),
        removal_of(data_dir, gone).thumbnail_file != photo_file(data_dir, kept.webview_path),
        removal_of(data_dir, gone).webview_file != photo_file(data_dir, kept.thumbnail_path),
        removal_of(data_dir, gone).webview_file != photo_file(data_dir, kept.webview_path),
{
    lemma_names_differ(gone.md5, kept.md5);
    lemma_names_differ(kept.md5, gone.md5);
    lemma_photo_files_differ(data_dir, gone.thumbnail_path, kept.thumbnail_path);
    lemma_photo_files_differ(data_dir, gone.thumbnail_path, kept.webview_path);
    lemma_photo_files_differ(data_dir, gone.webview_path, kept.thumbnail_path);
    lemma_photo_files_differ(data_dir, gone.webview_path, kept.webview_path);
}

/// Derivatives of different names are different files.
proof fn lemma_photo_files_differ(data_dir: Seq<char>, a: Seq<char>, b: Seq<char>)
    requires
        a != b,
    ensures
        photo_file(data_dir, a) != photo_file(data_dir, b),
{
    let front = data_dir + "/www/photos/"@;
    if photo_file(data_dir, a) == photo_file(data_dir, b) {
        assert(a =~= photo_file(data_dir, a).skip(front.len() as int));
        assert(b =~= photo_file(data_dir, b).skip(front.len() as int));
    }
}

/// A catalog with one entry for each image holds as many entries under the
/// root as there are images under the root that it tracks.
proof fn lemma_count_under(entries: Seq<Entry>, root: Seq<char>, paths: Seq<Seq<char>>)
    requires
        distinct(entries),
        paths.no_duplicates(),
        forall|path: Seq<char>|
            tracks(entries, path) && lies_under(path, root) <==> paths.contains(path),
    ensures
        under(entries, root).len() == paths.len(),
{
    let below = |e: Entry| lies_under(e.original_path, root);
    let part = under(entries, root);
    lemma_filter(entries, below);
    let mine = part.map_values(|e: Entry| e.original_path);
    assert(mine.no_duplicates()) by {
        assert forall|i: int, j: int|
            0 <= i < mine.len() && 0 <= j < mine.len() && i != j implies mine[i] != mine[j] by {
            if i < j {
                assert(part[i].original_path != part[j].original_path);
            } else {
                assert(part[j].original_path != part[i].original_path);
            }
        }
    }
    assert forall|path: Seq<char>| mine.contains(path) <==> paths.contains(path) by {
        lemma_tracks(entries, path);
        if mine.contains(path) {
            let i = choose|i: int| 0 <= i < mine.len() && mine[i] == path;
            assert(below(part[i]) && entries.contains(part[i]));
        }
        if paths.contains(path) {
            let i = choose|i: int| 0 <= i < entries.len() && #[trigger] entries[i].original_path
                == path;
            assert(below(entries[i]));
            assert(part.contains(entries[i]));
            let k = choose|k: int| 0 <= k < part.len() && part[k] == entries[i];
            assert(mine[k] == path);
        }
    }
    assert(mine.to_set() =~= paths.to_set());
    mine.unique_seq_to_set();
    paths.unique_seq_to_set();
}

/// After a scan of a directory the catalog tracks, under that directory,
/// the images that the scan found and no others, with one entry for each and
/// the identity with which it was found; what it tracks elsewhere is as
/// before.
pub proof fn lemma_sync_complete(entries: Seq<Entry>, root: Seq<char>, found: Seq<Found>)
    requires
        distinct(entries),
        is_scan(found, root),
    ensures
        distinct(synced(entries, root, found)),
        under(synced(entries, root, found), root).len() == found.len(),
        forall|path: Seq<char>|
            #![trigger tracks(synced(entries, root, found), path)]
            lies_under(path, root) ==> (tracks(synced(entries, root, found), path)
                <==> paths_of(found).contains(path)),
        forall|path: Seq<char>|
            #![trigger tracks(synced(entries, root, found), path)]
            !lies_under(path, root) ==> (tracks(synced(entries, root, found), path) <==> tracks(
                entries,
                path,
            )),
        forall|i: int|
            0 <= i < found.len() ==> synced(entries, root, found)[position(
                synced(entries, root, found),
                (#[trigger] found[i]).path,
            )].md5 == found[i].md5,
{
    let all = added_all(entries, found);
    let paths = paths_of(found);
    let after = synced(entries, root, found);
    lemma_added_all(entries, found);
    lemma_swept(all, root, paths);
    assert forall|path: Seq<char>| paths.contains(path) implies lies_under(path, root) by {
        let k = choose|k: int| 0 <= k < paths.len() && paths[k] == path;
        assert(found[k].path == path);
    }
    assert(after == swept(all, root, paths));
    assert forall|path: Seq<char>|
        tracks(after, path) && lies_under(path, root) <==> paths.contains(path) by {
        assert(tracks(swept(all, root, paths), path) <==> tracks(all, path) && (paths.contains(path)
            || !lies_under(path, root)));
        assert(tracks(all, path) <==> tracks(entries, path) || paths.contains(path));
    }
    assert forall|path: Seq<char>| !lies_under(path, root) implies (tracks(after, path) <==> tracks(
        entries,
        path,
    )) by {
        assert(tracks(swept(all, root, paths), path) <==> tracks(all, path) && (paths.contains(path)
            || !lies_under(path, root)));
        assert(tracks(all, path) <==> tracks(entries, path) || paths.contains(path));
    }
    lemma_count_under(after, root, paths);
    assert(paths.len() == found.len());
    assert forall|i: int| 0 <= i < found.len() implies after[position(
        after,
        (#[trigger] found[i]).path,
    )].md5 == found[i].md5 by {
        let path = found[i].path;
        assert(paths[i] == path);
        assert(paths.contains(path));
        assert(tracks(all, path) <==> tracks(entries, path) || paths.contains(path));
        lemma_sweep_keeps(all, root, paths, path);
    }
}

/// Where some of the images that a scan found are gone from disk, the next
/// scan removes the entries of exactly those: as many as are gone, one for
/// each image that is gone, and the catalog then holds under the root one
/// entry for each image that is still there.
pub proof fn lemma_resync(
    entries: Seq<Entry>,
    root: Seq<char>,
    found: Seq<Found>,
    still: Seq<Found>,
)
    requires
        distinct(entries),
        is_scan(found, root),
        is_scan(still, root),
        forall|i: int| 0 <= i < still.len() ==> paths_of(found).contains(#[trigger] still[i].path),
    ensures
        ({
            let first = synced(entries, root, found);
            let gone = stale(added_all(first, still), root, paths_of(still));
            &&& gone.len() == found.len() - still.len()
            &&& forall|i: int|
                0 <= i < gone.len() ==> paths_of(found).contains(
                    (#[trigger] gone[i]).original_path,
                ) && !paths_of(still).contains(gone[i].original_path)
            &&& forall|i: int|
                0 <= i < found.len() && !paths_of(still).contains(found[i].path) ==> exists|
                    k: int,
                |
                    0 <= k < gone.len() && #[trigger] gone[k].original_path == (
                    #[trigger] found[i]).path
            &&& under(synced(first, root, still), root).len() == still.len()
        }),
{
    let first = synced(entries, root, found);
    let again = added_all(first, still);
    let gone = stale(again, root, paths_of(still));
    let leaves = |e: Entry| is_stale(e, root, paths_of(still));
    lemma_sync_complete(entries, root, found);
    lemma_added_all(first, still);
    lemma_sync_complete(first, root, still);
    lemma_sweep_removes(again, root, paths_of(still));
    lemma_filter(again, leaves);
    assert forall|path: Seq<char>|
        tracks(again, path) && lies_under(path, root) <==> paths_of(found).contains(path) by {
        if paths_of(still).contains(path) {
            let k = choose|k: int| 0 <= k < paths_of(still).len() && paths_of(still)[k] == path;
            assert(still[k].path == path);
        }
        if paths_of(found).contains(path) {
            let k = choose|k: int| 0 <= k < paths_of(found).len() && paths_of(found)[k] == path;
            assert(found[k].path == path);
        }
    }
    lemma_count_under(again, root, paths_of(found));
    assert(paths_of(found).len() == found.len());
    assert forall|i: int| 0 <= i < gone.len() implies paths_of(found).contains(
        (#[trigger] gone[i]).original_path,
    ) && !paths_of(still).contains(gone[i].original_path) by {
        assert(leaves(gone[i]) && again.contains(gone[i]));
        lemma_tracks(again, gone[i].original_path);
    }
    assert forall|i: int|
        0 <= i < found.len() && !paths_of(still).contains(found[i].path) implies exists|k: int|
        0 <= k < gone.len() && #[trigger] gone[k].original_path == (#[trigger] found[i]).path by {
        let path = found[i].path;
        assert(paths_of(found)[i] == path);
        assert(tracks(again, path));
        let j = choose|j: int| 0 <= j < again.len() && #[trigger] again[j].original_path == path;
        assert(is_stale(again[j], root, paths_of(still)));
        assert(gone.contains(again[j]));
        let k = choose|k: int| 0 <= k < gone.len() && gone[k] == again[j];
        assert(gone[k].original_path == path);
    }
}

} // verus!
