//! Single-level directory listing: hidden entries are dropped, metadata
//! failures fall back to zero size and the placeholder timestamp, entries are
//! sorted directories-first then case-insensitively by name, and indices are
//! reassigned to match the final order.

use vstd::prelude::*;
use crate::clock::{modified_label, renderable_epoch};
use crate::ordering::{item_le, folder_le, sorted_by_le, sort_items, sort_folders};
use crate::seqtools::{count_where, lemma_sum_by_push, lemma_count_bounds, lemma_count_complement};
use crate::text::{hidden_name, ext_of, starts_with_dot, extension_of};
use crate::types::{FileItem, FolderNode, ListResult, RawDirEntry, RawFolderEntry};

verus! {

/// A raw entry is kept by a listing when its name is not hidden.
pub open spec fn visible_entry(e: RawDirEntry) -> bool {
    !hidden_name(e.name@)
}

/// The listed item `f` reports the raw entry `e`: same name, path and kind,
/// its size or zero, its extension, and the placeholder timestamp when the
/// metadata was unreadable.
pub open spec fn item_reports_entry(f: FileItem, e: RawDirEntry) -> bool {
    &&& f.filename@ == e.name@
    &&& f.filepath@ == e.path@
    &&& f.is_dir == e.is_dir
    &&& f.size_bytes == (match e.size {
        Some(v) => v,
        None => 0u64,
    })
    &&& f.extension@ == ext_of(e.name@)
    &&& (e.modified is None ==> f.modified@ == "-"@)
    &&& (e.modified matches Some(s) && renderable_epoch(s) ==> f.modified@.len() >= 16
        && f.modified@ != "-"@)
}

/// The item reports some visible raw entry.
pub open spec fn item_from_raw(f: FileItem, raw: Seq<RawDirEntry>) -> bool {
    exists|j: int| 0 <= j < raw.len() && visible_entry(raw[j]) && item_reports_entry(f, raw[j])
}

/// The raw entry is reported by some listed item.
pub open spec fn entry_listed(e: RawDirEntry, items: Seq<FileItem>) -> bool {
    exists|k: int| 0 <= k < items.len() && item_reports_entry(items[k], e)
}

/// Two items that differ at most in their index field.
pub open spec fn same_but_index(f: FileItem, g: FileItem) -> bool {
    &&& f.filename == g.filename
    &&& f.filepath == g.filepath
    &&& f.is_dir == g.is_dir
    &&& f.size_bytes == g.size_bytes
    &&& f.modified == g.modified
    &&& f.extension == g.extension
}

fn raw_to_item(e: &RawDirEntry) -> (f: FileItem)
    ensures
        item_reports_entry(f, *e),
        f.index == 0,
{
    FileItem {
        index: 0,
        filename: e.name.clone(),
        filepath: e.path.clone(),
        is_dir: e.is_dir,
        size_bytes: match e.size {
            Some(v) => v,
            None => 0,
        },
        modified: modified_label(&e.modified, true),
        extension: extension_of(e.name.as_str()),
    }
}

/// Builds the listing of a directory from its raw entries: hidden entries
/// are excluded, the rest are sorted (directories first, then
/// case-insensitively by name), indices follow the final order, and the two
/// totals split the kept entries by kind.
#[verifier::rlimit(100)]
pub fn build_listing(path: String, raw: Vec<RawDirEntry>) -> (r: ListResult)
    ensures
        r.path == path,
        r.files@.len() == count_where(raw@, |e: RawDirEntry| visible_entry(e)),
        r.total_files + r.total_folders == r.files@.len(),
        r.total_folders == count_where(r.files@, |f: FileItem| f.is_dir),
        r.total_files == count_where(r.files@, |f: FileItem| !f.is_dir),
        sorted_by_le(r.files@, |a: FileItem, b: FileItem| item_le(a, b)),
        forall|i: int| 0 <= i < r.files@.len() ==> #[trigger] r.files@[i].index == i,
        forall|i: int| 0 <= i < r.files@.len() ==> item_from_raw(#[trigger] r.files@[i], raw@),
        forall|j: int|
            0 <= j < raw@.len() && visible_entry(#[trigger] raw@[j]) ==> entry_listed(
                raw@[j],
                r.files@,
            ),
{
    let mut items: Vec<FileItem> = Vec::new();
    let n = raw.len();
    let mut i: usize = 0;
    proof {
        assert(raw@.take(0) =~= Seq::<RawDirEntry>::empty());
    }
    while i < n
        invariant
            n == raw@.len(),
            0 <= i <= n,
            items@.len() == count_where(raw@.take(i as int), |e: RawDirEntry| visible_entry(e)),
            forall|k: int| 0 <= k < items@.len() ==> item_from_raw(#[trigger] items@[k], raw@),
            forall|j: int|
                0 <= j < i && visible_entry(#[trigger] raw@[j]) ==> entry_listed(raw@[j], items@),
        decreases n - i,
    {
        proof {
            assert(raw@.take(i + 1).drop_last() =~= raw@.take(i as int));
            assert(raw@.take(i + 1) =~= raw@.take(i as int).push(raw@[i as int]));
            lemma_sum_by_push(
                raw@.take(i as int),
                raw@[i as int],
                |e: RawDirEntry| if visible_entry(e) {
                    1int
                } else {
                    0int
                },
            );
        }
        let keep = !starts_with_dot(raw[i].name.as_str());
        let ghost pre_items = items@;
        if keep {
            let f = raw_to_item(&raw[i]);
            items.push(f);
            proof {
                assert forall|k: int| 0 <= k < pre_items.len() implies #[trigger] items@[k]
                    == pre_items[k] by {
                    assert(items@[k] == pre_items.push(f)[k]);
                }
                assert(items@[pre_items.len() as int] == pre_items.push(f)[pre_items.len() as int]);
                assert(items@[pre_items.len() as int] == f);
                assert(visible_entry(raw@[i as int]));
                assert(item_reports_entry(f, raw@[i as int]));
                assert(item_from_raw(f, raw@));
                assert forall|j: int|
                    0 <= j < i + 1 && visible_entry(#[trigger] raw@[j]) implies entry_listed(
                    raw@[j],
                    items@,
                ) by {
                    if j < i {
                        assert(entry_listed(raw@[j], pre_items));
                        let k0 = choose|k0: int|
                            0 <= k0 < pre_items.len() && item_reports_entry(pre_items[k0], raw@[j]);
                        assert(items@[k0] == pre_items[k0]);
                        assert(item_reports_entry(items@[k0], raw@[j]));
                    } else {
                        assert(item_reports_entry(items@[pre_items.len() as int], raw@[j]));
                    }
                }
            }
        }
        i += 1;
    }
    proof {
        assert(raw@.take(n as int) =~= raw@);
    }
    let ghost items_snap = items@;
    let sorted = sort_items(items);
    proof {
        broadcast use vstd::seq_lib::group_to_multiset_ensures;

        assert forall|k: int| 0 <= k < sorted@.len() implies item_from_raw(
            #[trigger] sorted@[k],
            raw@,
        ) by {
            assert(sorted@.contains(sorted@[k]));
            assert(sorted@.to_multiset().count(sorted@[k]) > 0);
            assert(items_snap.contains(sorted@[k]));
            let k0 = choose|k0: int| 0 <= k0 < items_snap.len() && items_snap[k0] == sorted@[k];
            assert(item_from_raw(items_snap[k0], raw@));
        }
        assert forall|j: int|
            0 <= j < raw@.len() && visible_entry(#[trigger] raw@[j]) implies entry_listed(
            raw@[j],
            sorted@,
        ) by {
            assert(entry_listed(raw@[j], items_snap));
            let k0 = choose|k0: int|
                0 <= k0 < items_snap.len() && item_reports_entry(items_snap[k0], raw@[j]);
            assert(items_snap.contains(items_snap[k0]));
            assert(items_snap.to_multiset().count(items_snap[k0]) > 0);
            assert(sorted@.contains(items_snap[k0]));
            let k1 = choose|k1: int| 0 <= k1 < sorted@.len() && sorted@[k1] == items_snap[k0];
            assert(item_reports_entry(sorted@[k1], raw@[j]));
        }
    }
    let ghost sorted_snap = sorted@;
    let mut rest = sorted;
    let mut out: Vec<FileItem> = Vec::new();
    while rest.len() > 0
        invariant
            out@.len() + rest@.len() == sorted_snap.len(),
            forall|k: int|
                0 <= k < rest@.len() ==> #[trigger] rest@[k] == sorted_snap[out@.len() + k],
            forall|k: int|
                0 <= k < out@.len() ==> same_but_index(sorted_snap[k], #[trigger] out@[k])
                    && out@[k].index == k,
        decreases rest@.len(),
    {
        let ghost pre_out = out@;
        let ghost pre_rest = rest@;
        let mut f = rest.remove(0);
        f.index = out.len();
        out.push(f);
        proof {
            assert forall|k: int| 0 <= k < pre_out.len() implies #[trigger] out@[k]
                == pre_out[k] by {
                assert(out@[k] == pre_out.push(f)[k]);
            }
            assert(out@[pre_out.len() as int] == pre_out.push(f)[pre_out.len() as int]);
            assert(same_but_index(sorted_snap[pre_out.len() as int], out@[pre_out.len() as int]));
            assert forall|k: int| 0 <= k < rest@.len() implies #[trigger] rest@[k]
                == sorted_snap[out@.len() + k] by {
                assert(rest@[k] == pre_rest.remove(0)[k]);
                assert(pre_rest[k + 1] == sorted_snap[pre_out.len() + k + 1]);
            }
        }
    }
    proof {
        assert forall|i2: int| 0 <= i2 < out@.len() implies item_from_raw(
            #[trigger] out@[i2],
            raw@,
        ) by {
            assert(item_from_raw(sorted_snap[i2], raw@));
            let j0 = choose|j0: int|
                0 <= j0 < raw@.len() && visible_entry(raw@[j0]) && item_reports_entry(
                    sorted_snap[i2],
                    raw@[j0],
                );
            assert(item_reports_entry(out@[i2], raw@[j0]));
        }
        assert forall|j: int|
            0 <= j < raw@.len() && visible_entry(#[trigger] raw@[j]) implies entry_listed(
            raw@[j],
            out@,
        ) by {
            assert(entry_listed(raw@[j], sorted_snap));
            let k1 = choose|k1: int|
                0 <= k1 < sorted_snap.len() && item_reports_entry(sorted_snap[k1], raw@[j]);
            assert(same_but_index(sorted_snap[k1], out@[k1]));
            assert(item_reports_entry(out@[k1], raw@[j]));
        }
        assert forall|i2: int, j2: int| 0 <= i2 < j2 < out@.len() implies (|a: FileItem,
            b: FileItem|
            item_le(a, b))(out@[i2], out@[j2]) by {
            assert((|a: FileItem, b: FileItem| item_le(a, b))(sorted_snap[i2], sorted_snap[j2]));
            assert(same_but_index(sorted_snap[i2], out@[i2]));
            assert(same_but_index(sorted_snap[j2], out@[j2]));
        }
    }
    let mut folders: usize = 0;
    let m = out.len();
    let mut k: usize = 0;
    proof {
        assert(out@.take(0) =~= Seq::<FileItem>::empty());
    }
    while k < m
        invariant
            m == out@.len(),
            0 <= k <= m,
            folders == count_where(out@.take(k as int), |f: FileItem| f.is_dir),
            0 <= folders <= k,
        decreases m - k,
    {
        proof {
            assert(out@.take(k + 1).drop_last() =~= out@.take(k as int));
            assert(out@.take(k + 1) =~= out@.take(k as int).push(out@[k as int]));
            lemma_sum_by_push(
                out@.take(k as int),
                out@[k as int],
                |f: FileItem| if f.is_dir {
                    1int
                } else {
                    0int
                },
            );
            lemma_count_bounds(out@.take(k as int), |f: FileItem| f.is_dir);
        }
        if out[k].is_dir {
            folders += 1;
        }
        k += 1;
    }
    proof {
        assert(out@.take(m as int) =~= out@);
        lemma_count_complement(out@, |f: FileItem| f.is_dir, |f: FileItem| !f.is_dir);
    }
    let total_files = m - folders;
    ListResult { path, files: out, total_files, total_folders: folders }
}

/// Whether some child entry is a non-hidden directory.
pub fn has_visible_subdir(children: &Vec<RawDirEntry>) -> (r: bool)
    ensures
        r == exists|j: int|
            0 <= j < children@.len() && children@[j].is_dir && !hidden_name(children@[j].name@),
{
    let n = children.len();
    let mut i: usize = 0;
    while i < n
        invariant
            n == children@.len(),
            0 <= i <= n,
            forall|j: int| 0 <= j < i ==> !(children@[j].is_dir && !hidden_name(children@[j].name@)),
        decreases n - i,
    {
        if children[i].is_dir && !starts_with_dot(children[i].name.as_str()) {
            return true;
        }
        i += 1;
    }
    false
}

/// A raw entry kept by the folder listing: a non-hidden directory.
pub open spec fn visible_folder(e: RawFolderEntry) -> bool {
    e.is_dir && !hidden_name(e.name@)
}

/// The node `n` reports the raw folder entry `e`.
pub open spec fn node_reports_entry(n: FolderNode, e: RawFolderEntry) -> bool {
    n.name@ == e.name@ && n.path@ == e.path@ && n.has_children == e.has_children
}

/// The node reports some visible folder entry.
pub open spec fn node_from_raw(n: FolderNode, raw: Seq<RawFolderEntry>) -> bool {
    exists|j: int| 0 <= j < raw.len() && visible_folder(raw[j]) && node_reports_entry(n, raw[j])
}

/// The folder entry is reported by some node.
pub open spec fn folder_listed(e: RawFolderEntry, nodes: Seq<FolderNode>) -> bool {
    exists|k: int| 0 <= k < nodes.len() && node_reports_entry(nodes[k], e)
}

/// Builds the subfolder list of a directory: non-hidden directories only,
/// sorted case-insensitively by name.
#[verifier::rlimit(100)]
pub fn build_folder_nodes(raw: Vec<RawFolderEntry>) -> (r: Vec<FolderNode>)
    ensures
        r@.len() == count_where(raw@, |e: RawFolderEntry| visible_folder(e)),
        sorted_by_le(r@, |a: FolderNode, b: FolderNode| folder_le(a, b)),
        forall|i: int| 0 <= i < r@.len() ==> node_from_raw(#[trigger] r@[i], raw@),
        forall|j: int|
            0 <= j < raw@.len() && visible_folder(#[trigger] raw@[j]) ==> folder_listed(
                raw@[j],
                r@,
            ),
{
    let mut nodes: Vec<FolderNode> = Vec::new();
    let n = raw.len();
    let mut i: usize = 0;
    proof {
        assert(raw@.take(0) =~= Seq::<RawFolderEntry>::empty());
    }
    while i < n
        invariant
            n == raw@.len(),
            0 <= i <= n,
            nodes@.len() == count_where(raw@.take(i as int), |e: RawFolderEntry| visible_folder(e)),
            forall|k: int| 0 <= k < nodes@.len() ==> node_from_raw(#[trigger] nodes@[k], raw@),
            forall|j: int|
                0 <= j < i && visible_folder(#[trigger] raw@[j]) ==> folder_listed(
                    raw@[j],
                    nodes@,
                ),
        decreases n - i,
    {
        proof {
            assert(raw@.take(i + 1).drop_last() =~= raw@.take(i as int));
            assert(raw@.take(i + 1) =~= raw@.take(i as int).push(raw@[i as int]));
            lemma_sum_by_push(
                raw@.take(i as int),
                raw@[i as int],
                |e: RawFolderEntry| if visible_folder(e) {
                    1int
                } else {
                    0int
                },
            );
        }
        let ghost pre_nodes = nodes@;
        if raw[i].is_dir && !starts_with_dot(raw[i].name.as_str()) {
            let node = FolderNode {
                name: raw[i].name.clone(),
                path: raw[i].path.clone(),
                has_children: raw[i].has_children,
            };
            nodes.push(node);
            proof {
                assert forall|k: int| 0 <= k < pre_nodes.len() implies #[trigger] nodes@[k]
                    == pre_nodes[k] by {
                    assert(nodes@[k] == pre_nodes.push(node)[k]);
                }
                assert(nodes@[pre_nodes.len() as int] == pre_nodes.push(
                    node,
                )[pre_nodes.len() as int]);
                assert(nodes@[pre_nodes.len() as int] == node);
                assert(visible_folder(raw@[i as int]));
                assert(node_reports_entry(node, raw@[i as int]));
                assert(node_from_raw(node, raw@));
                assert forall|j: int|
                    0 <= j < i + 1 && visible_folder(#[trigger] raw@[j]) implies folder_listed(
                    raw@[j],
                    nodes@,
                ) by {
                    if j < i {
                        assert(folder_listed(raw@[j], pre_nodes));
                        let k0 = choose|k0: int|
                            0 <= k0 < pre_nodes.len() && node_reports_entry(pre_nodes[k0], raw@[j]);
                        assert(nodes@[k0] == pre_nodes[k0]);
                        assert(node_reports_entry(nodes@[k0], raw@[j]));
                    } else {
                        assert(node_reports_entry(nodes@[pre_nodes.len() as int], raw@[j]));
                    }
                }
            }
        }
        i += 1;
    }
    proof {
        assert(raw@.take(n as int) =~= raw@);
    }
    let ghost nodes_snap = nodes@;
    let r = sort_folders(nodes);
    proof {
        broadcast use vstd::seq_lib::group_to_multiset_ensures;

        assert forall|i2: int| 0 <= i2 < r@.len() implies node_from_raw(
            #[trigger] r@[i2],
            raw@,
        ) by {
            assert(r@.contains(r@[i2]));
            assert(r@.to_multiset().count(r@[i2]) > 0);
            assert(nodes_snap.contains(r@[i2]));
            let k0 = choose|k0: int| 0 <= k0 < nodes_snap.len() && nodes_snap[k0] == r@[i2];
            assert(node_from_raw(nodes_snap[k0], raw@));
        }
        assert forall|j: int|
            0 <= j < raw@.len() && visible_folder(#[trigger] raw@[j]) implies folder_listed(
            raw@[j],
            r@,
        ) by {
            assert(folder_listed(raw@[j], nodes_snap));
            let k0 = choose|k0: int|
                0 <= k0 < nodes_snap.len() && node_reports_entry(nodes_snap[k0], raw@[j]);
            assert(nodes_snap.contains(nodes_snap[k0]));
            assert(nodes_snap.to_multiset().count(nodes_snap[k0]) > 0);
            assert(r@.contains(nodes_snap[k0]));
            let k1 = choose|k1: int| 0 <= k1 < r@.len() && r@[k1] == nodes_snap[k0];
            assert(node_reports_entry(r@[k1], raw@[j]));
        }
    }
    r
}

} // verus!
