//! Storage statistics over a bounded walk: per-category counts and sizes,
//! running totals (saturating at the counter's capacity), and the capped set
//! of largest files, kept sorted by size descending.

use vstd::prelude::*;
use vstd::pervasive::VecAdditionalExecFns;
use crate::catalog::{spec_category, category_for};
use crate::clock::{modified_label, renderable_epoch};
use crate::ordering::{sorted_by_le, stat_le, sort_stats};
use crate::seqtools::{
    count_where, sum_by, lemma_sum_by_push, lemma_sum_by_update, lemma_count_bounds,
    lemma_sum_pointwise,
};
use crate::text::{ext_of, extension_of, str_eq};
use crate::types::{CategoryStat, FileItem, StorageStats, WalkEntry};
use crate::walker::{entry_size, walk_spec, bounded_walk};

verus! {

/// Category label of a walked file, derived from its name's extension.
pub open spec fn entry_label(e: WalkEntry) -> Seq<char> {
    spec_category(ext_of(e.name@))
}

/// An integer capped at what a size counter can hold.
pub open spec fn cap_u64(x: int) -> int {
    if x > u64::MAX {
        u64::MAX as int
    } else {
        x
    }
}

/// Total size of the walked files, uncapped.
pub open spec fn total_bytes(s: Seq<WalkEntry>) -> int {
    sum_by(s, |e: WalkEntry| entry_size(e))
}

/// Number of walked files carrying the given label.
pub open spec fn cat_count(s: Seq<WalkEntry>, lbl: Seq<char>) -> int {
    count_where(s, |e: WalkEntry| entry_label(e) == lbl)
}

/// Total size of the walked files carrying the given label, uncapped.
pub open spec fn cat_size(s: Seq<WalkEntry>, lbl: Seq<char>) -> int {
    sum_by(
        s,
        |e: WalkEntry| if entry_label(e) == lbl {
            entry_size(e)
        } else {
            0
        },
    )
}

/// Sum of the size counters of a category list.
pub open spec fn stat_sizes(cs: Seq<CategoryStat>) -> int {
    sum_by(cs, |c: CategoryStat| c.size_bytes as int)
}

/// Sum of the count counters of a category list.
pub open spec fn stat_counts(cs: Seq<CategoryStat>) -> int {
    sum_by(cs, |c: CategoryStat| c.count as int)
}

/// Some stat in the list carries the given label.
pub open spec fn label_present(cs: Seq<CategoryStat>, lbl: Seq<char>) -> bool {
    exists|k: int| 0 <= k < cs.len() && cs[k].category@ == lbl
}

/// The stat `c` describes exactly the files of its label in `s`: their
/// number, and their total size capped at the counter's capacity.
pub open spec fn stat_describes(c: CategoryStat, s: Seq<WalkEntry>) -> bool {
    c.count == cat_count(s, c.category@) && c.size_bytes as int == cap_u64(cat_size(s, c.category@))
}

/// The listed largest-file item `f` reports the walked entry `e`.
pub open spec fn item_reports_walk(f: FileItem, e: WalkEntry) -> bool {
    &&& f.filename@ == e.name@
    &&& f.filepath@ == e.path@
    &&& !f.is_dir
    &&& f.size_bytes as int == entry_size(e)
    &&& f.extension@ == ext_of(e.name@)
    &&& (e.modified is None ==> f.modified@ == "-"@)
    &&& (e.modified matches Some(s) && renderable_epoch(s) ==> f.modified@.len() >= 10
        && f.modified@ != "-"@)
}

/// A size sum over a label is at least zero and at most the total.
proof fn lemma_cat_size_bounds(s: Seq<WalkEntry>, lbl: Seq<char>)
    ensures
        0 <= cat_size(s, lbl) <= total_bytes(s),
    decreases s.len(),
{
    if s.len() > 0 {
        lemma_cat_size_bounds(s.drop_last(), lbl);
    }
}

/// A label carried by no file has zero count and zero size.
proof fn lemma_cat_absent(s: Seq<WalkEntry>, lbl: Seq<char>)
    requires
        forall|j: int| 0 <= j < s.len() ==> entry_label(#[trigger] s[j]) != lbl,
    ensures
        cat_size(s, lbl) == 0,
        cat_count(s, lbl) == 0,
    decreases s.len(),
{
    if s.len() > 0 {
        assert(entry_label(s[s.len() - 1]) != lbl);
        lemma_cat_absent(s.drop_last(), lbl);
    }
}

/// Position where an entry is inserted in the size-descending largest list:
/// after every held entry at least as large.
pub open spec fn ins_pos(t: Seq<WalkEntry>, f: WalkEntry) -> int
    decreases t.len(),
{
    if t.len() == 0 {
        0
    } else if entry_size(t[0]) >= entry_size(f) {
        1 + ins_pos(t.drop_first(), f)
    } else {
        0
    }
}

/// The largest list after admitting one entry: inserted in order, then
/// trimmed to the capacity of fifteen.
pub open spec fn topk_insert(t: Seq<WalkEntry>, f: WalkEntry) -> Seq<WalkEntry> {
    let u = t.insert(ins_pos(t, f), f);
    if u.len() > 15 {
        u.take(15)
    } else {
        u
    }
}

/// The largest list after the first `i` walked files.
pub open spec fn topk(s: Seq<WalkEntry>, i: int) -> Seq<WalkEntry>
    decreases i,
{
    if i <= 0 {
        Seq::empty()
    } else {
        topk_insert(topk(s, i - 1), s[i - 1])
    }
}

/// Sizes do not increase along the list.
pub open spec fn sorted_desc(t: Seq<WalkEntry>) -> bool {
    forall|i: int, j: int| 0 <= i < j < t.len() ==> entry_size(t[i]) >= entry_size(t[j])
}

/// Sizes strictly decrease along the list.
pub open spec fn strictly_desc(t: Seq<WalkEntry>) -> bool {
    forall|i: int, j: int| 0 <= i < j < t.len() ==> entry_size(t[i]) > entry_size(t[j])
}

proof fn lemma_ins_pos_props(t: Seq<WalkEntry>, f: WalkEntry)
    ensures
        0 <= ins_pos(t, f) <= t.len(),
        forall|k: int| 0 <= k < ins_pos(t, f) ==> entry_size(#[trigger] t[k]) >= entry_size(f),
        ins_pos(t, f) < t.len() ==> entry_size(t[ins_pos(t, f)]) < entry_size(f),
    decreases t.len(),
{
    if t.len() > 0 && entry_size(t[0]) >= entry_size(f) {
        lemma_ins_pos_props(t.drop_first(), f);
        assert forall|k: int| 0 <= k < ins_pos(t, f) implies entry_size(#[trigger] t[k])
            >= entry_size(f) by {
            if k > 0 {
                assert(t.drop_first()[k - 1] == t[k]);
            }
        }
        if ins_pos(t, f) < t.len() {
            assert(t.drop_first()[ins_pos(t, f) - 1] == t[ins_pos(t, f)]);
        }
    }
}

proof fn lemma_topk_insert_props(t: Seq<WalkEntry>, f: WalkEntry)
    requires
        sorted_desc(t),
    ensures
        sorted_desc(topk_insert(t, f)),
        topk_insert(t, f).len() == vstd::math::min(t.len() as int + 1, 15),
        forall|k: int|
            0 <= k < topk_insert(t, f).len() ==> (#[trigger] topk_insert(t, f)[k] == f || exists|
                j: int,
            | 0 <= j < t.len() && topk_insert(t, f)[k] == t[j]),
{
    lemma_ins_pos_props(t, f);
    let p = ins_pos(t, f);
    let u = t.insert(p, f);
    t.insert_ensures(p, f);
    assert(sorted_desc(u)) by {
        assert forall|i: int, j: int| 0 <= i < j < u.len() implies entry_size(u[i]) >= entry_size(
            u[j],
        ) by {
            if j == p {
                assert(entry_size(u[i]) >= entry_size(f));
            } else if i == p {
                if j > p {
                    assert(u[j] == t[j - 1]);
                    if p < t.len() {
                        assert(entry_size(t[p]) < entry_size(f));
                        if j - 1 > p {
                            assert(entry_size(t[p]) >= entry_size(t[j - 1]));
                        }
                    }
                }
            } else if i < p && j > p {
                assert(u[i] == t[i] && u[j] == t[j - 1]);
                if i < j - 1 {
                    assert(entry_size(t[i]) >= entry_size(t[j - 1]));
                }
            }
        }
    }
    if u.len() > 15 {
        assert(topk_insert(t, f) == u.take(15));
        assert forall|k: int| 0 <= k < u.take(15).len() implies #[trigger] u.take(15)[k]
            == u[k] by {}
    }
}

/// Shape of the largest list: sorted by size descending, holding the smaller
/// of the prefix length and fifteen entries, each drawn from the prefix.
pub proof fn lemma_topk_props(s: Seq<WalkEntry>, i: int)
    requires
        0 <= i <= s.len(),
    ensures
        sorted_desc(topk(s, i)),
        topk(s, i).len() == vstd::math::min(i, 15),
        forall|k: int|
            0 <= k < topk(s, i).len() ==> exists|j: int| 0 <= j < i && #[trigger] topk(s, i)[k]
                == s[j],
    decreases i,
{
    if i > 0 {
        lemma_topk_props(s, i - 1);
        lemma_topk_insert_props(topk(s, i - 1), s[i - 1]);
        assert forall|k: int| 0 <= k < topk(s, i).len() implies exists|j: int|
            0 <= j < i && #[trigger] topk(s, i)[k] == s[j] by {
            let t = topk(s, i - 1);
            if topk(s, i)[k] == s[i - 1] {
                assert(topk(s, i)[k] == s[i - 1]);
            } else {
                let j0 = choose|j0: int| 0 <= j0 < t.len() && topk(s, i)[k] == t[j0];
                assert(exists|j: int| 0 <= j < i - 1 && t[j0] == s[j]);
            }
        }
    }
}

/// With pairwise distinct file sizes the largest list is strictly sorted.
pub proof fn lemma_topk_strict(s: Seq<WalkEntry>, i: int)
    requires
        0 <= i <= s.len(),
        forall|a: int, b: int|
            0 <= a < b < s.len() ==> entry_size(#[trigger] s[a]) != entry_size(#[trigger] s[b]),
    ensures
        strictly_desc(topk(s, i)),
    decreases i,
{
    if i > 0 {
        lemma_topk_strict(s, i - 1);
        lemma_topk_props(s, i - 1);
        let t = topk(s, i - 1);
        let f = s[i - 1];
        lemma_ins_pos_props(t, f);
        let p = ins_pos(t, f);
        let u = t.insert(p, f);
        t.insert_ensures(p, f);
        assert forall|k: int| 0 <= k < t.len() implies entry_size(#[trigger] t[k]) != entry_size(
            f,
        ) by {
            let j0 = choose|j0: int| 0 <= j0 < i - 1 && t[k] == s[j0];
            assert(entry_size(s[j0]) != entry_size(s[i - 1]));
        }
        assert(strictly_desc(u)) by {
            assert forall|a: int, b: int| 0 <= a < b < u.len() implies entry_size(u[a])
                > entry_size(u[b]) by {
                if b == p {
                    assert(entry_size(u[a]) >= entry_size(f));
                    assert(entry_size(u[a]) != entry_size(f));
                } else if a == p {
                    assert(u[b] == t[b - 1]);
                    if p < t.len() {
                        assert(entry_size(t[p]) < entry_size(f));
                        if b - 1 > p {
                            assert(entry_size(t[p]) > entry_size(t[b - 1]));
                        }
                    }
                } else if a < p && b > p {
                    assert(u[a] == t[a] && u[b] == t[b - 1]);
                    if a < b - 1 {
                        assert(entry_size(t[a]) > entry_size(t[b - 1]));
                    }
                }
            }
        }
        if u.len() > 15 {
            assert(topk(s, i) == u.take(15));
            assert forall|k: int| 0 <= k < u.take(15).len() implies #[trigger] u.take(15)[k]
                == u[k] by {}
        }
    }
}

/// Reported size of a walked entry, zero when its metadata was unreadable.
fn size_of_entry(e: &WalkEntry) -> (r: u64)
    ensures
        r as int == entry_size(*e),
{
    match e.size {
        Some(v) => v,
        None => 0,
    }
}

/// The item the largest-files list reports for a walked file.
fn walk_to_item(e: &WalkEntry) -> (f: FileItem)
    ensures
        item_reports_walk(f, *e),
{
    FileItem {
        index: 0,
        filename: e.name.clone(),
        filepath: e.path.clone(),
        is_dir: false,
        size_bytes: size_of_entry(e),
        modified: modified_label(&e.modified, false),
        extension: extension_of(e.name.as_str()),
    }
}

fn clone_entry(e: &WalkEntry) -> (r: WalkEntry)
    ensures
        r == *e,
{
    WalkEntry {
        name: e.name.clone(),
        path: e.path.clone(),
        depth: e.depth,
        is_dir: e.is_dir,
        size: e.size,
        modified: e.modified,
    }
}

fn find_label(cats: &Vec<CategoryStat>, lbl: &str) -> (r: Option<usize>)
    ensures
        match r {
            Some(k) => k < cats@.len() && cats@[k as int].category@ == lbl@,
            None => forall|k: int| 0 <= k < cats@.len() ==> cats@[k].category@ != lbl@,
        },
{
    let n = cats.len();
    let mut i: usize = 0;
    while i < n
        invariant
            n == cats@.len(),
            0 <= i <= n,
            forall|k: int| 0 <= k < i ==> cats@[k].category@ != lbl@,
        decreases n - i,
    {
        if str_eq(cats[i].category.as_str(), lbl) {
            return Some(i);
        }
        i += 1;
    }
    None
}

/// Aggregates walked files into the storage summary: exact per-category
/// counts, sizes saturating at the counter's capacity, totals, and the
/// largest-files list capped at fifteen, sorted by size descending.
#[verifier::rlimit(100)]
pub fn aggregate_stats(files: &Vec<WalkEntry>) -> (r: StorageStats)
    ensures
        r.total_files == files@.len(),
        r.total_size as int == cap_u64(total_bytes(files@)),
        forall|k: int|
            0 <= k < r.categories@.len() ==> stat_describes(#[trigger] r.categories@[k], files@),
        forall|k: int| 0 <= k < r.categories@.len() ==> (#[trigger] r.categories@[k]).count >= 1,
        forall|k: int, l: int|
            0 <= k < l < r.categories@.len() ==> r.categories@[k].category@
                != r.categories@[l].category@,
        forall|j: int|
            0 <= j < files@.len() ==> label_present(
                r.categories@,
                entry_label(#[trigger] files@[j]),
            ),
        sorted_by_le(r.categories@, |a: CategoryStat, b: CategoryStat| stat_le(a, b)),
        stat_counts(r.categories@) == files@.len() as int,
        total_bytes(files@) <= u64::MAX as int ==> stat_sizes(r.categories@)
            == r.total_size as int,
        r.largest_files@.len() == topk(files@, files@.len() as int).len(),
        forall|k: int|
            0 <= k < r.largest_files@.len() ==> item_reports_walk(
                #[trigger] r.largest_files@[k],
                topk(files@, files@.len() as int)[k],
            ),
        r.largest_files@.len() == vstd::math::min(files@.len() as int, 15),
        forall|a: int, b: int|
            0 <= a < b < r.largest_files@.len() ==> r.largest_files@[a].size_bytes
                >= r.largest_files@[b].size_bytes,
        (forall|a: int, b: int|
            0 <= a < b < files@.len() ==> entry_size(#[trigger] files@[a]) != entry_size(
                #[trigger] files@[b],
            )) ==> forall|a: int, b: int|
            0 <= a < b < r.largest_files@.len() ==> r.largest_files@[a].size_bytes
                > r.largest_files@[b].size_bytes,
{
    let n = files.len();
    let mut total: u64 = 0;
    let mut cats: Vec<CategoryStat> = Vec::new();
    let ghost mut gsizes = Seq::<int>::empty();
    let mut tk: Vec<WalkEntry> = Vec::new();
    let mut i: usize = 0;
    proof {
        assert(files@.take(0) =~= Seq::<WalkEntry>::empty());
    }
    while i < n
        invariant
            n == files@.len(),
            0 <= i <= n,
            total as int == cap_u64(total_bytes(files@.take(i as int))),
            tk@ == topk(files@, i as int),
            sorted_desc(tk@),
            cats@.len() == gsizes.len(),
            forall|k: int|
                0 <= k < cats@.len() ==> gsizes[k] == cat_size(
                    files@.take(i as int),
                    (#[trigger] cats@[k]).category@,
                ),
            forall|k: int|
                0 <= k < cats@.len() ==> (#[trigger] cats@[k]).size_bytes as int == cap_u64(
                    gsizes[k],
                ),
            forall|k: int|
                0 <= k < cats@.len() ==> (#[trigger] cats@[k]).count == cat_count(
                    files@.take(i as int),
                    cats@[k].category@,
                ),
            forall|k: int| 0 <= k < cats@.len() ==> (#[trigger] cats@[k]).count >= 1,
            forall|k: int, l: int|
                0 <= k < l < cats@.len() ==> cats@[k].category@ != cats@[l].category@,
            forall|j: int|
                0 <= j < i ==> label_present(cats@, entry_label(#[trigger] files@[j])),
            sum_by(gsizes, |x: int| x) == total_bytes(files@.take(i as int)),
            stat_counts(cats@) == i as int,
        decreases n - i,
    {
        let ghost pre = files@.take(i as int);
        let ghost cur = files@[i as int];
        proof {
            assert(files@.take(i + 1).drop_last() =~= pre);
            assert(files@.take(i + 1) =~= pre.push(cur));
            lemma_sum_by_push(pre, cur, |e2: WalkEntry| entry_size(e2));
            assert forall|k: int| 0 <= k < cats@.len() implies cat_size(
                pre.push(cur),
                (#[trigger] cats@[k]).category@,
            ) == gsizes[k] + (if entry_label(cur) == cats@[k].category@ {
                entry_size(cur)
            } else {
                0
            }) by {
                lemma_sum_by_push(
                    pre,
                    cur,
                    |e2: WalkEntry| if entry_label(e2) == cats@[k].category@ {
                        entry_size(e2)
                    } else {
                        0
                    },
                );
            }
            assert forall|k: int| 0 <= k < cats@.len() implies cat_count(
                pre.push(cur),
                (#[trigger] cats@[k]).category@,
            ) == cat_count(pre, cats@[k].category@) + (if entry_label(cur) == cats@[k].category@ {
                1int
            } else {
                0int
            }) by {
                lemma_sum_by_push(
                    pre,
                    cur,
                    |e2: WalkEntry| if (|e3: WalkEntry| entry_label(e3) == cats@[k].category@)(
                        e2,
                    ) {
                        1int
                    } else {
                        0int
                    },
                );
            }
        }
        let e = &files[i];
        let sz = size_of_entry(e);
        total = if total > u64::MAX - sz {
            u64::MAX
        } else {
            total + sz
        };
        let ext = extension_of(e.name.as_str());
        let lbl = category_for(ext.as_str());
        proof {
            assert(lbl@ == entry_label(cur));
        }
        let ghost pre_cats = cats@;
        let ghost pre_gsizes = gsizes;
        match find_label(&cats, lbl) {
            Some(k) => {
                proof {
                    crate::seqtools::lemma_count_bounds(
                        pre,
                        |e2: WalkEntry| entry_label(e2) == cats@[k as int].category@,
                    );
                }
                let c = cats[k].count + 1;
                let ns = if cats[k].size_bytes > u64::MAX - sz {
                    u64::MAX
                } else {
                    cats[k].size_bytes + sz
                };
                let newstat = CategoryStat { category: cats[k].category.clone(), count: c, size_bytes: ns };
                cats.set(k, newstat);
                proof {
                    gsizes = gsizes.update(k as int, pre_gsizes[k as int] + entry_size(cur));
                    assert(cats@[k as int] == newstat);
                    assert forall|k2: int|
                        0 <= k2 < cats@.len() && k2 != k implies #[trigger] cats@[k2]
                        == pre_cats[k2] by {
                        assert(cats@[k2] == pre_cats.update(k as int, newstat)[k2]);
                    }
                    assert(newstat.category@ == pre_cats[k as int].category@);
                    assert(entry_label(cur) == pre_cats[k as int].category@);
                    lemma_sum_by_update(
                        pre_gsizes,
                        k as int,
                        pre_gsizes[k as int] + entry_size(cur),
                        |x: int| x,
                    );
                    lemma_sum_by_update(
                        pre_cats,
                        k as int,
                        newstat,
                        |c2: CategoryStat| c2.count as int,
                    );
                    assert forall|j: int|
                        0 <= j < i + 1 implies label_present(
                        cats@,
                        entry_label(#[trigger] files@[j]),
                    ) by {
                        if j < i {
                            let k0 = choose|k0: int|
                                0 <= k0 < pre_cats.len() && pre_cats[k0].category@ == entry_label(
                                    files@[j],
                                );
                            if k0 == k {
                                assert(cats@[k0].category@ == entry_label(files@[j]));
                            } else {
                                assert(cats@[k0] == pre_cats[k0]);
                            }
                        } else {
                            assert(cats@[k as int].category@ == entry_label(files@[j]));
                        }
                    }
                    assert forall|k2: int| 0 <= k2 < cats@.len() implies gsizes[k2] == cat_size(
                        files@.take(i + 1),
                        (#[trigger] cats@[k2]).category@,
                    ) by {
                        assert(cat_size(pre.push(cur), pre_cats[k2].category@) == pre_gsizes[k2] + (
                        if entry_label(cur) == pre_cats[k2].category@ {
                            entry_size(cur)
                        } else {
                            0
                        }));
                        if k2 != k {
                            assert(pre_cats[k2].category@ != pre_cats[k as int].category@);
                        }
                    }
                    assert forall|k2: int| 0 <= k2 < cats@.len() implies (#[trigger] cats@[k2]).count
                        == cat_count(files@.take(i + 1), cats@[k2].category@) by {
                        assert(cat_count(pre.push(cur), pre_cats[k2].category@) == cat_count(
                            pre,
                            pre_cats[k2].category@,
                        ) + (if entry_label(cur) == pre_cats[k2].category@ {
                            1int
                        } else {
                            0int
                        }));
                        if k2 != k {
                            assert(pre_cats[k2].category@ != pre_cats[k as int].category@);
                        }
                    }
                }
            },
            None => {
                let stat = CategoryStat { category: lbl.to_owned(), count: 1, size_bytes: sz };
                cats.push(stat);
                proof {
                    gsizes = pre_gsizes.push(entry_size(cur));
                    assert forall|j: int| 0 <= j < pre.len() implies entry_label(#[trigger] pre[j])
                        != lbl@ by {
                        assert(pre[j] == files@[j]);
                        if entry_label(pre[j]) == lbl@ {
                            assert(label_present(pre_cats, entry_label(files@[j])));
                            let k0 = choose|k0: int|
                                0 <= k0 < pre_cats.len() && pre_cats[k0].category@ == entry_label(
                                    files@[j],
                                );
                            assert(false);
                        }
                    }
                    lemma_cat_absent(pre, lbl@);
                    lemma_sum_by_push(
                        pre,
                        cur,
                        |e2: WalkEntry| if entry_label(e2) == lbl@ {
                            entry_size(e2)
                        } else {
                            0
                        },
                    );
                    lemma_sum_by_push(
                        pre,
                        cur,
                        |e2: WalkEntry| if (|e3: WalkEntry| entry_label(e3) == lbl@)(e2) {
                            1int
                        } else {
                            0int
                        },
                    );
                    lemma_sum_by_push(pre_gsizes, entry_size(cur), |x: int| x);
                    lemma_sum_by_push(pre_cats, cats@[pre_cats.len() as int], |c2: CategoryStat| c2.count as int);
                    assert(cats@.drop_last() =~= pre_cats);
                    assert forall|k: int| 0 <= k < pre_cats.len() implies #[trigger] cats@[k]
                        == pre_cats[k] by {
                        assert(cats@[k] == pre_cats.push(cats@[pre_cats.len() as int])[k]);
                    }
                    assert forall|k: int| 0 <= k < pre_cats.len() implies cat_size(pre, (#[trigger] cats@[k]).category@) == pre_gsizes[k] by {}
                    assert forall|j: int|
                        0 <= j < i + 1 implies label_present(
                        cats@,
                        entry_label(#[trigger] files@[j]),
                    ) by {
                        if j < i {
                            let k0 = choose|k0: int|
                                0 <= k0 < pre_cats.len() && pre_cats[k0].category@ == entry_label(
                                    files@[j],
                                );
                            assert(cats@[k0].category@ == entry_label(files@[j]));
                        } else {
                            assert(cats@[pre_cats.len() as int].category@ == entry_label(files@[j]));
                        }
                    }
                    assert forall|k2: int| 0 <= k2 < cats@.len() implies gsizes[k2] == cat_size(
                        files@.take(i + 1),
                        (#[trigger] cats@[k2]).category@,
                    ) by {
                        if k2 < pre_cats.len() {
                            assert(cat_size(pre.push(cur), pre_cats[k2].category@) == pre_gsizes[k2]
                                + (if entry_label(cur) == pre_cats[k2].category@ {
                                entry_size(cur)
                            } else {
                                0
                            }));
                        } else {
                            assert(cats@[k2].category@ == lbl@);
                            assert(cat_size(pre, lbl@) == 0);
                        }
                    }
                    assert forall|k2: int| 0 <= k2 < cats@.len() implies (#[trigger] cats@[k2]).count
                        == cat_count(files@.take(i + 1), cats@[k2].category@) by {
                        if k2 < pre_cats.len() {
                            assert(cat_count(pre.push(cur), pre_cats[k2].category@) == cat_count(
                                pre,
                                pre_cats[k2].category@,
                            ) + (if entry_label(cur) == pre_cats[k2].category@ {
                                1int
                            } else {
                                0int
                            }));
                        } else {
                            assert(cats@[k2].category@ == lbl@);
                            assert(cat_count(pre, lbl@) == 0);
                        }
                    }
                }
            },
        }
        let w = clone_entry(e);
        let tkn = tk.len();
        let mut pos: usize = 0;
        loop
            invariant
                tkn == tk@.len(),
                0 <= pos <= tkn,
                forall|k: int| 0 <= k < pos ==> entry_size(#[trigger] tk@[k]) >= sz as int,
            ensures
                0 <= pos <= tk@.len(),
                forall|k: int| 0 <= k < pos ==> entry_size(#[trigger] tk@[k]) >= sz as int,
                pos < tk@.len() ==> entry_size(tk@[pos as int]) < sz as int,
            decreases tkn - pos,
        {
            if pos == tkn {
                break;
            }
            if size_of_entry(&tk[pos]) >= sz {
                pos += 1;
            } else {
                break;
            }
        }
        proof {
            lemma_ins_pos_props(tk@, w);
            assert(sz as int == entry_size(w));
            if (pos as int) < ins_pos(tk@, w) {
                assert(entry_size(tk@[pos as int]) >= entry_size(w));
                assert(false);
            }
            if (pos as int) > ins_pos(tk@, w) {
                assert(entry_size(tk@[ins_pos(tk@, w)]) < entry_size(w));
                assert(false);
            }
            assert(pos as int == ins_pos(tk@, w));
            lemma_topk_insert_props(tk@, w);
        }
        let ghost pre_tk = tk@;
        tk.insert(pos, w);
        if tk.len() > 15 {
            tk.pop();
            proof {
                assert(tk@ =~= pre_tk.insert(pos as int, w).take(15));
            }
        }
        proof {
            assert(tk@ == topk_insert(pre_tk, w));
            assert(topk(files@, i + 1) == topk_insert(topk(files@, i as int), files@[i as int]));
        }
        i += 1;
    }
    proof {
        assert(files@.take(n as int) =~= files@);
        lemma_topk_props(files@, n as int);
        if forall|a: int, b: int|
            0 <= a < b < files@.len() ==> entry_size(#[trigger] files@[a]) != entry_size(
                #[trigger] files@[b],
            ) {
            lemma_topk_strict(files@, n as int);
        }
    }
    let mut largest: Vec<FileItem> = Vec::new();
    let m = tk.len();
    let mut k: usize = 0;
    while k < m
        invariant
            m == tk@.len(),
            0 <= k <= m,
            largest@.len() == k,
            forall|x: int|
                0 <= x < k ==> item_reports_walk(#[trigger] largest@[x], tk@[x]),
        decreases m - k,
    {
        let f = walk_to_item(&tk[k]);
        largest.push(f);
        k += 1;
    }
    let ghost cats_snap = cats@;
    let sorted_cats = sort_stats(cats);
    proof {
        broadcast use vstd::seq_lib::group_to_multiset_ensures;
        broadcast use vstd::multiset::group_multiset_axioms;

        assert forall|k2: int| 0 <= k2 < sorted_cats@.len() implies stat_describes(
            #[trigger] sorted_cats@[k2],
            files@,
        ) && (#[trigger] sorted_cats@[k2]).count >= 1 by {
            assert(sorted_cats@.contains(sorted_cats@[k2]));
            assert(sorted_cats@.to_multiset().count(sorted_cats@[k2]) > 0);
            assert(cats_snap.contains(sorted_cats@[k2]));
            let k0 = choose|k0: int| 0 <= k0 < cats_snap.len() && cats_snap[k0] == sorted_cats@[k2];
            assert(gsizes[k0] == cat_size(files@, cats_snap[k0].category@));
        }
        assert forall|j: int| 0 <= j < files@.len() implies label_present(
            sorted_cats@,
            entry_label(#[trigger] files@[j]),
        ) by {
            let k0 = choose|k0: int|
                0 <= k0 < cats_snap.len() && cats_snap[k0].category@ == entry_label(files@[j]);
            assert(cats_snap.contains(cats_snap[k0]));
            assert(cats_snap.to_multiset().count(cats_snap[k0]) > 0);
            assert(sorted_cats@.contains(cats_snap[k0]));
            let k1 = choose|k1: int|
                0 <= k1 < sorted_cats@.len() && sorted_cats@[k1] == cats_snap[k0];
            assert(sorted_cats@[k1].category@ == entry_label(files@[j]));
        }
        assert(cats_snap.no_duplicates()) by {
            assert forall|a: int, b: int|
                0 <= a < cats_snap.len() && 0 <= b < cats_snap.len() && a != b implies cats_snap[a]
                != cats_snap[b] by {
                if a < b {
                    assert(cats_snap[a].category@ != cats_snap[b].category@);
                } else {
                    assert(cats_snap[b].category@ != cats_snap[a].category@);
                }
            }
        }
        cats_snap.lemma_multiset_has_no_duplicates();
        sorted_cats@.lemma_multiset_has_no_duplicates_conv();
        assert forall|k2: int, l2: int|
            0 <= k2 < l2 < sorted_cats@.len() implies sorted_cats@[k2].category@
            != sorted_cats@[l2].category@ by {
            if sorted_cats@[k2].category@ == sorted_cats@[l2].category@ {
                assert(sorted_cats@.contains(sorted_cats@[k2]));
                assert(sorted_cats@.to_multiset().count(sorted_cats@[k2]) > 0);
                assert(cats_snap.contains(sorted_cats@[k2]));
                assert(sorted_cats@.contains(sorted_cats@[l2]));
                assert(sorted_cats@.to_multiset().count(sorted_cats@[l2]) > 0);
                assert(cats_snap.contains(sorted_cats@[l2]));
                let j1 = choose|j1: int|
                    0 <= j1 < cats_snap.len() && cats_snap[j1] == sorted_cats@[k2];
                let j2 = choose|j2: int|
                    0 <= j2 < cats_snap.len() && cats_snap[j2] == sorted_cats@[l2];
                assert(j1 == j2);
                assert(sorted_cats@[k2] == sorted_cats@[l2]);
                assert(false);
            }
        }
        if total_bytes(files@) <= u64::MAX as int {
            assert forall|k2: int| 0 <= k2 < cats_snap.len() implies (#[trigger] cats_snap[k2]).size_bytes as int
                == gsizes[k2] by {
                lemma_cat_size_bounds(files@, cats_snap[k2].category@);
            }
            lemma_sum_pointwise(
                cats_snap,
                gsizes,
                |c2: CategoryStat| c2.size_bytes as int,
                |x: int| x,
            );
        }
    }
    StorageStats { total_size: total, total_files: n, categories: sorted_cats, largest_files: largest }
}

/// Files of the walked stream that carry the given label, capped in number.
pub open spec fn cat_filter(s: Seq<WalkEntry>, cat: Seq<char>, cap: int) -> Seq<WalkEntry>
    decreases s.len(),
{
    if s.len() == 0 || cap <= 0 {
        Seq::empty()
    } else if entry_label(s[0]) == cat {
        seq![s[0]] + cat_filter(s.drop_first(), cat, cap - 1)
    } else {
        cat_filter(s.drop_first(), cat, cap)
    }
}

/// Depth cap of a statistics or category scan.
pub const SCAN_MAX_DEPTH: usize = 10;

/// Entry cap of a statistics scan.
pub const SCAN_MAX_ENTRIES: usize = 50000;

/// Entry cap of a category-filtered scan.
pub const CATEGORY_SCAN_MAX_ENTRIES: usize = 10000;

/// Result cap of a category-filtered scan.
pub const CATEGORY_RESULT_CAP: usize = 500;

/// Storage statistics of a directory: the raw traversal stream is first
/// bounded (depth and entry caps of the scan policy, hidden subtrees pruned),
/// then aggregated.
pub fn directory_stats(entries: Vec<WalkEntry>) -> (r: StorageStats)
    ensures
        ({
            let walked = walk_spec(
                entries@,
                SCAN_MAX_DEPTH as int,
                SCAN_MAX_ENTRIES as int,
                None,
            );
            &&& r.total_files == walked.len()
            &&& r.total_size as int == cap_u64(total_bytes(walked))
            &&& forall|k: int|
                0 <= k < r.categories@.len() ==> stat_describes(#[trigger] r.categories@[k], walked)
            &&& forall|k: int|
                0 <= k < r.categories@.len() ==> (#[trigger] r.categories@[k]).count >= 1
            &&& forall|k: int, l: int|
                0 <= k < l < r.categories@.len() ==> r.categories@[k].category@
                    != r.categories@[l].category@
            &&& forall|j: int|
                0 <= j < walked.len() ==> label_present(r.categories@, entry_label(
                    #[trigger] walked[j],
                ))
            &&& sorted_by_le(r.categories@, |a: CategoryStat, b: CategoryStat| stat_le(a, b))
            &&& stat_counts(r.categories@) == walked.len() as int
            &&& (total_bytes(walked) <= u64::MAX as int ==> stat_sizes(r.categories@)
                == r.total_size as int)
            &&& r.largest_files@.len() == topk(walked, walked.len() as int).len()
            &&& forall|k: int|
                0 <= k < r.largest_files@.len() ==> item_reports_walk(
                    #[trigger] r.largest_files@[k],
                    topk(walked, walked.len() as int)[k],
                )
        }),
{
    let walked = bounded_walk(entries, SCAN_MAX_DEPTH, SCAN_MAX_ENTRIES);
    aggregate_stats(&walked)
}

/// Walked files of one category, in stream order, capped in number; each
/// returned item reports its entry.
pub fn files_by_category(entries: Vec<WalkEntry>, category: &str) -> (r: Vec<FileItem>)
    ensures
        ({
            let picked = cat_filter(
                walk_spec(
                    entries@,
                    SCAN_MAX_DEPTH as int,
                    CATEGORY_SCAN_MAX_ENTRIES as int,
                    None,
                ),
                category@,
                CATEGORY_RESULT_CAP as int,
            );
            &&& r@.len() == picked.len()
            &&& forall|k: int|
                0 <= k < r@.len() ==> item_reports_walk(#[trigger] r@[k], picked[k])
        }),
{
    let walked = bounded_walk(entries, SCAN_MAX_DEPTH, CATEGORY_SCAN_MAX_ENTRIES);
    let ghost wseq = walked@;
    let mut sel: Vec<WalkEntry> = Vec::new();
    let mut src = walked;
    proof {
        assert(sel@ + cat_filter(src@, category@, CATEGORY_RESULT_CAP as int) =~= cat_filter(
            wseq,
            category@,
            CATEGORY_RESULT_CAP as int,
        ));
    }
    while src.len() > 0 && sel.len() < CATEGORY_RESULT_CAP
        invariant
            sel@.len() <= CATEGORY_RESULT_CAP,
            cat_filter(wseq, category@, CATEGORY_RESULT_CAP as int) == sel@ + cat_filter(
                src@,
                category@,
                CATEGORY_RESULT_CAP - sel@.len(),
            ),
        decreases src@.len(),
    {
        let ghost pre = src@;
        let ghost rem = CATEGORY_RESULT_CAP - sel@.len();
        let e = src.remove(0);
        proof {
            assert(pre[0] == e);
            assert(pre.drop_first() =~= src@);
        }
        let ext = extension_of(e.name.as_str());
        let lbl = category_for(ext.as_str());
        if str_eq(lbl, category) {
            let ghost pre_sel = sel@;
            sel.push(e);
            proof {
                assert(cat_filter(pre, category@, rem) =~= seq![e] + cat_filter(
                    src@,
                    category@,
                    rem - 1,
                ));
                assert(pre_sel + cat_filter(pre, category@, rem) =~= sel@ + cat_filter(
                    src@,
                    category@,
                    rem - 1,
                ));
            }
        }
    }
    proof {
        if sel@.len() >= CATEGORY_RESULT_CAP {
            assert(cat_filter(src@, category@, CATEGORY_RESULT_CAP - sel@.len())
                =~= Seq::<WalkEntry>::empty());
        } else {
            assert(src@.len() == 0);
            assert(cat_filter(src@, category@, CATEGORY_RESULT_CAP - sel@.len())
                =~= Seq::<WalkEntry>::empty());
        }
        assert(sel@ + Seq::<WalkEntry>::empty() =~= sel@);
    }
    let mut out: Vec<FileItem> = Vec::new();
    let m = sel.len();
    let mut k: usize = 0;
    while k < m
        invariant
            m == sel@.len(),
            0 <= k <= m,
            out@.len() == k,
            forall|x: int| 0 <= x < k ==> item_reports_walk(#[trigger] out@[x], sel@[x]),
        decreases m - k,
    {
        let f = walk_to_item(&sel[k]);
        out.push(f);
        k += 1;
    }
    out
}

} // verus!
