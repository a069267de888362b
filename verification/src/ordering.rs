//! Ordering rules of the engine and the sorts that apply them: listing
//! entries (directories first, then case-insensitive by name), folder nodes
//! (case-insensitive by name) and category statistics (largest size first).

use vstd::prelude::*;
use vstd::multiset::Multiset;
use crate::text::{lex_le, lower_of, lemma_lex_le_total, lemma_lex_le_trans};
use crate::types::{FileItem, FolderNode, CategoryStat};

verus! {

/// A sequence is sorted under `le`.
pub open spec fn sorted_by_le<A>(s: Seq<A>, le: spec_fn(A, A) -> bool) -> bool {
    forall|i: int, j: int| 0 <= i < j < s.len() ==> #[trigger] le(s[i], s[j])
}

/// Inserting `x` at the first position whose element does not come before it
/// keeps a sequence sorted, for a total and transitive `le`.
#[verifier::rlimit(60)]
pub proof fn lemma_sorted_insert<A>(s: Seq<A>, pos: int, x: A, le: spec_fn(A, A) -> bool)
    requires
        sorted_by_le(s, le),
        forall|p: A, q: A| #[trigger] le(p, q) || #[trigger] le(q, p),
        forall|p: A, q: A, r: A| #[trigger] le(p, q) && #[trigger] le(q, r) ==> le(p, r),
        0 <= pos <= s.len(),
        forall|k: int| 0 <= k < pos ==> #[trigger] le(s[k], x),
        pos < s.len() ==> !le(s[pos], x),
    ensures
        sorted_by_le(s.insert(pos, x), le),
{
    let t = s.insert(pos, x);
    s.insert_ensures(pos, x);
    assert forall|i: int, j: int| 0 <= i < j < t.len() implies #[trigger] le(t[i], t[j]) by {
        if j == pos {
            assert(le(t[i], x));
        } else if i == pos {
            assert(!le(s[pos], x));
            assert(le(x, s[pos]));
            if j > pos + 1 {
                assert(le(s[pos], s[j - 1]));
            }
        } else if i < pos && j > pos {
            assert(le(s[i], s[j - 1]));
        }
    }
}

/// Listing order: directories before files, then by lowercased name.
pub open spec fn item_le(a: FileItem, b: FileItem) -> bool {
    if a.is_dir != b.is_dir {
        a.is_dir
    } else {
        lex_le(lower_of(a.filename@), lower_of(b.filename@))
    }
}

fn item_le_exec(a: &FileItem, b: &FileItem) -> (r: bool)
    ensures
        r == item_le(*a, *b),
{
    if a.is_dir != b.is_dir {
        a.is_dir
    } else {
        crate::text::ci_le(a.filename.as_str(), b.filename.as_str())
    }
}

proof fn lemma_item_le_laws()
    ensures
        forall|p: FileItem, q: FileItem| #[trigger] item_le(p, q) || #[trigger] item_le(q, p),
        forall|p: FileItem, q: FileItem, r: FileItem|
            #[trigger] item_le(p, q) && #[trigger] item_le(q, r) ==> item_le(p, r),
{
    assert forall|p: FileItem, q: FileItem| #[trigger] item_le(p, q) || #[trigger] item_le(
        q,
        p,
    ) by {
        lemma_lex_le_total(lower_of(p.filename@), lower_of(q.filename@));
    }
    assert forall|p: FileItem, q: FileItem, r: FileItem|
        #[trigger] item_le(p, q) && #[trigger] item_le(q, r) implies item_le(p, r) by {
        if p.is_dir == q.is_dir && q.is_dir == r.is_dir {
            lemma_lex_le_trans(lower_of(p.filename@), lower_of(q.filename@), lower_of(r.filename@));
        }
    }
}

/// Sorts listing entries: directories first, then case-insensitive by name.
pub fn sort_items(v: Vec<FileItem>) -> (r: Vec<FileItem>)
    ensures
        r@.to_multiset() == v@.to_multiset(),
        r@.len() == v@.len(),
        sorted_by_le(r@, |a: FileItem, b: FileItem| item_le(a, b)),
{
    let mut src = v;
    let mut out: Vec<FileItem> = Vec::new();
    proof {
        lemma_item_le_laws();
    }
    proof {
        broadcast use vstd::seq_lib::group_to_multiset_ensures;
        broadcast use vstd::multiset::group_multiset_axioms;

        assert(out@.to_multiset() =~= Multiset::empty());
        assert(out@.to_multiset().add(src@.to_multiset()) =~= src@.to_multiset());
    }
    while src.len() > 0
        invariant
            out@.to_multiset().add(src@.to_multiset()) =~= v@.to_multiset(),
            out@.len() + src@.len() == v@.len(),
            sorted_by_le(out@, |a: FileItem, b: FileItem| item_le(a, b)),
            forall|p: FileItem, q: FileItem| #[trigger] item_le(p, q) || #[trigger] item_le(q, p),
            forall|p: FileItem, q: FileItem, r: FileItem|
                #[trigger] item_le(p, q) && #[trigger] item_le(q, r) ==> item_le(p, r),
        decreases src@.len(),
    {
        let ghost pre = src@;
        let x = src.remove(0);
        let mut pos: usize = 0;
        loop
            invariant
                0 <= pos <= out@.len(),
                forall|k: int| 0 <= k < pos ==> #[trigger] item_le(out@[k], x),
            ensures
                0 <= pos <= out@.len(),
                pos < out@.len() ==> !item_le(out@[pos as int], x),
                forall|k: int| 0 <= k < pos ==> #[trigger] item_le(out@[k], x),
            decreases out@.len() - pos,
        {
            if pos == out.len() {
                break;
            }
            if !item_le_exec(&out[pos], &x) {
                break;
            }
            pos += 1;
        }
        proof {
            broadcast use vstd::seq_lib::group_to_multiset_ensures;
            broadcast use vstd::multiset::group_multiset_axioms;

            lemma_sorted_insert(out@, pos as int, x, |a: FileItem, b: FileItem| item_le(a, b));
            crate::seqtools::lemma_to_multiset_insert(out@, pos as int, x);
            assert(pre[0] == x);
            assert(pre.contains(x));
            assert(pre.to_multiset().count(x) >= 1);
            assert(out@.insert(pos as int, x).to_multiset().add(src@.to_multiset())
                =~= out@.to_multiset().add(pre.to_multiset()));
        }
        out.insert(pos, x);
    }
    proof {
        broadcast use vstd::seq_lib::group_to_multiset_ensures;
        broadcast use vstd::multiset::group_multiset_axioms;

        assert(src@.to_multiset() =~= Multiset::empty());
        assert(out@.to_multiset().add(Multiset::empty()) =~= out@.to_multiset());
    }
    out
}

/// Folder order: by lowercased name.
pub open spec fn folder_le(a: FolderNode, b: FolderNode) -> bool {
    lex_le(lower_of(a.name@), lower_of(b.name@))
}

fn folder_le_exec(a: &FolderNode, b: &FolderNode) -> (r: bool)
    ensures
        r == folder_le(*a, *b),
{
    crate::text::ci_le(a.name.as_str(), b.name.as_str())
}

/// Sorts folder nodes case-insensitively by name.
pub fn sort_folders(v: Vec<FolderNode>) -> (r: Vec<FolderNode>)
    ensures
        r@.to_multiset() == v@.to_multiset(),
        r@.len() == v@.len(),
        sorted_by_le(r@, |a: FolderNode, b: FolderNode| folder_le(a, b)),
{
    let mut src = v;
    let mut out: Vec<FolderNode> = Vec::new();
    proof {
        assert forall|p: FolderNode, q: FolderNode| #[trigger] folder_le(p, q)
            || #[trigger] folder_le(q, p) by {
            lemma_lex_le_total(lower_of(p.name@), lower_of(q.name@));
        }
        assert forall|p: FolderNode, q: FolderNode, r: FolderNode|
            #[trigger] folder_le(p, q) && #[trigger] folder_le(q, r) implies folder_le(p, r) by {
            lemma_lex_le_trans(lower_of(p.name@), lower_of(q.name@), lower_of(r.name@));
        }
    }
    proof {
        broadcast use vstd::seq_lib::group_to_multiset_ensures;
        broadcast use vstd::multiset::group_multiset_axioms;

        assert(out@.to_multiset() =~= Multiset::empty());
        assert(out@.to_multiset().add(src@.to_multiset()) =~= src@.to_multiset());
    }
    while src.len() > 0
        invariant
            out@.to_multiset().add(src@.to_multiset()) =~= v@.to_multiset(),
            out@.len() + src@.len() == v@.len(),
            sorted_by_le(out@, |a: FolderNode, b: FolderNode| folder_le(a, b)),
            forall|p: FolderNode, q: FolderNode| #[trigger] folder_le(p, q) || #[trigger] folder_le(
                q,
                p,
            ),
            forall|p: FolderNode, q: FolderNode, r: FolderNode|
                #[trigger] folder_le(p, q) && #[trigger] folder_le(q, r) ==> folder_le(p, r),
        decreases src@.len(),
    {
        let ghost pre = src@;
        let x = src.remove(0);
        let mut pos: usize = 0;
        loop
            invariant
                0 <= pos <= out@.len(),
                forall|k: int| 0 <= k < pos ==> #[trigger] folder_le(out@[k], x),
            ensures
                0 <= pos <= out@.len(),
                pos < out@.len() ==> !folder_le(out@[pos as int], x),
                forall|k: int| 0 <= k < pos ==> #[trigger] folder_le(out@[k], x),
            decreases out@.len() - pos,
        {
            if pos == out.len() {
                break;
            }
            if !folder_le_exec(&out[pos], &x) {
                break;
            }
            pos += 1;
        }
        proof {
            broadcast use vstd::seq_lib::group_to_multiset_ensures;
            broadcast use vstd::multiset::group_multiset_axioms;

            lemma_sorted_insert(out@, pos as int, x, |a: FolderNode, b: FolderNode| folder_le(a, b));
            crate::seqtools::lemma_to_multiset_insert(out@, pos as int, x);
            assert(pre[0] == x);
            assert(pre.contains(x));
            assert(pre.to_multiset().count(x) >= 1);
            assert(out@.insert(pos as int, x).to_multiset().add(src@.to_multiset())
                =~= out@.to_multiset().add(pre.to_multiset()));
        }
        out.insert(pos, x);
    }
    proof {
        broadcast use vstd::seq_lib::group_to_multiset_ensures;
        broadcast use vstd::multiset::group_multiset_axioms;

        assert(src@.to_multiset() =~= Multiset::empty());
        assert(out@.to_multiset().add(Multiset::empty()) =~= out@.to_multiset());
    }
    out
}

/// Statistics order: larger total size first.
pub open spec fn stat_le(a: CategoryStat, b: CategoryStat) -> bool {
    a.size_bytes >= b.size_bytes
}

/// Sorts category statistics by total size, descending.
pub fn sort_stats(v: Vec<CategoryStat>) -> (r: Vec<CategoryStat>)
    ensures
        r@.to_multiset() == v@.to_multiset(),
        r@.len() == v@.len(),
        sorted_by_le(r@, |a: CategoryStat, b: CategoryStat| stat_le(a, b)),
        crate::seqtools::sum_by(r@, |c: CategoryStat| c.size_bytes as int) == crate::seqtools::sum_by(
            v@,
            |c: CategoryStat| c.size_bytes as int,
        ),
        crate::seqtools::sum_by(r@, |c: CategoryStat| c.count as int) == crate::seqtools::sum_by(
            v@,
            |c: CategoryStat| c.count as int,
        ),
{
    let mut src = v;
    let mut out: Vec<CategoryStat> = Vec::new();
    proof {
        broadcast use vstd::seq_lib::group_to_multiset_ensures;
        broadcast use vstd::multiset::group_multiset_axioms;

        assert(out@.to_multiset() =~= Multiset::empty());
        assert(out@.to_multiset().add(src@.to_multiset()) =~= src@.to_multiset());
    }
    while src.len() > 0
        invariant
            out@.to_multiset().add(src@.to_multiset()) =~= v@.to_multiset(),
            out@.len() + src@.len() == v@.len(),
            sorted_by_le(out@, |a: CategoryStat, b: CategoryStat| stat_le(a, b)),
            crate::seqtools::sum_by(out@, |c: CategoryStat| c.size_bytes as int)
                + crate::seqtools::sum_by(src@, |c: CategoryStat| c.size_bytes as int)
                == crate::seqtools::sum_by(v@, |c: CategoryStat| c.size_bytes as int),
            crate::seqtools::sum_by(out@, |c: CategoryStat| c.count as int)
                + crate::seqtools::sum_by(src@, |c: CategoryStat| c.count as int)
                == crate::seqtools::sum_by(v@, |c: CategoryStat| c.count as int),
        decreases src@.len(),
    {
        let ghost pre = src@;
        let x = src.remove(0);
        let mut pos: usize = 0;
        loop
            invariant
                0 <= pos <= out@.len(),
                forall|k: int| 0 <= k < pos ==> #[trigger] stat_le(out@[k], x),
            ensures
                0 <= pos <= out@.len(),
                pos < out@.len() ==> !stat_le(out@[pos as int], x),
                forall|k: int| 0 <= k < pos ==> #[trigger] stat_le(out@[k], x),
            decreases out@.len() - pos,
        {
            if pos == out.len() {
                break;
            }
            if out[pos].size_bytes < x.size_bytes {
                break;
            }
            pos += 1;
        }
        proof {
            broadcast use vstd::seq_lib::group_to_multiset_ensures;
            broadcast use vstd::multiset::group_multiset_axioms;

            crate::seqtools::lemma_sum_by_remove(pre, 0, |c: CategoryStat| c.size_bytes as int);
            crate::seqtools::lemma_sum_by_remove(pre, 0, |c: CategoryStat| c.count as int);
            crate::seqtools::lemma_sum_by_insert(
                out@,
                pos as int,
                x,
                |c: CategoryStat| c.size_bytes as int,
            );
            crate::seqtools::lemma_sum_by_insert(
                out@,
                pos as int,
                x,
                |c: CategoryStat| c.count as int,
            );
            lemma_sorted_insert(out@, pos as int, x, |a: CategoryStat, b: CategoryStat| stat_le(a, b));
            crate::seqtools::lemma_to_multiset_insert(out@, pos as int, x);
            assert(pre[0] == x);
            assert(pre.contains(x));
            assert(pre.to_multiset().count(x) >= 1);
            assert(out@.insert(pos as int, x).to_multiset().add(src@.to_multiset())
                =~= out@.to_multiset().add(pre.to_multiset()));
        }
        out.insert(pos, x);
    }
    proof {
        broadcast use vstd::seq_lib::group_to_multiset_ensures;
        broadcast use vstd::multiset::group_multiset_axioms;

        assert(src@.to_multiset() =~= Multiset::empty());
        assert(out@.to_multiset().add(Multiset::empty()) =~= out@.to_multiset());
    }
    out
}

} // verus!
