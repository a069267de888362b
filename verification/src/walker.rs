//! Bounded selection over a depth-first traversal stream: hidden entries
//! prune their whole subtree, directories are traversed but not yielded,
//! entries below the depth cap are dropped, and the yield stops at the entry
//! cap. The stream itself is read by the shell; the selection is total and
//! deterministic over it.

use vstd::prelude::*;
use crate::text::hidden_name;
use crate::text::starts_with_dot;
use crate::types::WalkEntry;

verus! {

/// Reported size of an entry, zero when its metadata was unreadable.
pub open spec fn entry_size(e: WalkEntry) -> int {
    match e.size {
        Some(v) => v as int,
        None => 0,
    }
}

/// The entries yielded by the bounded walk over the stream `s`: at most
/// `remaining` non-hidden files of depth at most `max_depth`, with anything
/// inside a hidden directory's subtree (depth greater than `skip`) dropped.
pub open spec fn walk_spec(
    s: Seq<WalkEntry>,
    max_depth: int,
    remaining: int,
    skip: Option<int>,
) -> Seq<WalkEntry>
    decreases s.len(),
{
    if s.len() == 0 || remaining <= 0 {
        Seq::empty()
    } else {
        let e = s[0];
        let rest = s.drop_first();
        let in_skip = match skip {
            Some(d) => e.depth > d,
            None => false,
        };
        if in_skip {
            walk_spec(rest, max_depth, remaining, skip)
        } else if e.depth > max_depth {
            walk_spec(rest, max_depth, remaining, None)
        } else if hidden_name(e.name@) {
            if e.is_dir {
                walk_spec(rest, max_depth, remaining, Some(e.depth as int))
            } else {
                walk_spec(rest, max_depth, remaining, None)
            }
        } else if e.is_dir {
            walk_spec(rest, max_depth, remaining, None)
        } else {
            seq![e] + walk_spec(rest, max_depth, remaining - 1, None)
        }
    }
}

/// Every yielded entry is a non-hidden file within the depth cap.
pub proof fn lemma_walk_entries(s: Seq<WalkEntry>, max_depth: int, remaining: int, skip: Option<int>)
    ensures
        forall|k: int|
            0 <= k < walk_spec(s, max_depth, remaining, skip).len() ==> {
                let e = #[trigger] walk_spec(s, max_depth, remaining, skip)[k];
                !e.is_dir && !hidden_name(e.name@) && e.depth <= max_depth
            },
    decreases s.len(),
{
    if s.len() == 0 || remaining <= 0 {
    } else {
        let e = s[0];
        let rest = s.drop_first();
        let in_skip = match skip {
            Some(d) => e.depth > d,
            None => false,
        };
        if in_skip {
            lemma_walk_entries(rest, max_depth, remaining, skip);
        } else if e.depth > max_depth {
            lemma_walk_entries(rest, max_depth, remaining, None);
        } else if hidden_name(e.name@) {
            if e.is_dir {
                lemma_walk_entries(rest, max_depth, remaining, Some(e.depth as int));
            } else {
                lemma_walk_entries(rest, max_depth, remaining, None);
            }
        } else if e.is_dir {
            lemma_walk_entries(rest, max_depth, remaining, None);
        } else {
            lemma_walk_entries(rest, max_depth, remaining - 1, None);
        }
    }
}

/// The yield is no longer than the entry cap, and no longer than the stream.
pub proof fn lemma_walk_len(s: Seq<WalkEntry>, max_depth: int, remaining: int, skip: Option<int>)
    ensures
        walk_spec(s, max_depth, remaining, skip).len() <= remaining || remaining < 0,
        walk_spec(s, max_depth, remaining, skip).len() <= s.len(),
    decreases s.len(),
{
    if s.len() == 0 || remaining <= 0 {
    } else {
        let e = s[0];
        let rest = s.drop_first();
        let in_skip = match skip {
            Some(d) => e.depth > d,
            None => false,
        };
        if in_skip {
            lemma_walk_len(rest, max_depth, remaining, skip);
        } else if e.depth > max_depth {
            lemma_walk_len(rest, max_depth, remaining, None);
        } else if hidden_name(e.name@) {
            if e.is_dir {
                lemma_walk_len(rest, max_depth, remaining, Some(e.depth as int));
            } else {
                lemma_walk_len(rest, max_depth, remaining, None);
            }
        } else if e.is_dir {
            lemma_walk_len(rest, max_depth, remaining, None);
        } else {
            lemma_walk_len(rest, max_depth, remaining - 1, None);
        }
    }
}

/// A tighter cap truncates the yield of a looser one: the capped walk yields
/// exactly the smaller of the cap and the looser walk's yield.
pub proof fn lemma_walk_cap(
    s: Seq<WalkEntry>,
    max_depth: int,
    r1: int,
    r2: int,
    skip: Option<int>,
)
    requires
        0 <= r1 <= r2,
    ensures
        walk_spec(s, max_depth, r1, skip).len() == vstd::math::min(
            r1,
            walk_spec(s, max_depth, r2, skip).len() as int,
        ),
    decreases s.len(),
{
    lemma_walk_len(s, max_depth, r1, skip);
    lemma_walk_len(s, max_depth, r2, skip);
    if s.len() == 0 || r1 <= 0 {
    } else {
        let e = s[0];
        let rest = s.drop_first();
        let in_skip = match skip {
            Some(d) => e.depth > d,
            None => false,
        };
        if in_skip {
            lemma_walk_cap(rest, max_depth, r1, r2, skip);
        } else if e.depth > max_depth {
            lemma_walk_cap(rest, max_depth, r1, r2, None);
        } else if hidden_name(e.name@) {
            if e.is_dir {
                lemma_walk_cap(rest, max_depth, r1, r2, Some(e.depth as int));
            } else {
                lemma_walk_cap(rest, max_depth, r1, r2, None);
            }
        } else if e.is_dir {
            lemma_walk_cap(rest, max_depth, r1, r2, None);
        } else {
            lemma_walk_cap(rest, max_depth, r1 - 1, r2 - 1, None);
        }
    }
}

/// The two caps of the bounded walk: no yielded entry lies deeper than the
/// depth cap; a stream whose full yield would reach the entry cap yields
/// exactly the cap, and one whose full yield stays below it is not cut.
pub proof fn lemma_walk_bounds(s: Seq<WalkEntry>, max_depth: int, cap: int)
    requires
        0 <= cap,
    ensures
        walk_spec(s, max_depth, cap, None).len() <= cap,
        forall|k: int|
            0 <= k < walk_spec(s, max_depth, cap, None).len() ==> #[trigger] walk_spec(
                s,
                max_depth,
                cap,
                None,
            )[k].depth <= max_depth,
        walk_spec(s, max_depth, s.len() as int, None).len() >= cap ==> walk_spec(
            s,
            max_depth,
            cap,
            None,
        ).len() == cap,
        walk_spec(s, max_depth, s.len() as int, None).len() < cap ==> walk_spec(
            s,
            max_depth,
            cap,
            None,
        ).len() == walk_spec(s, max_depth, s.len() as int, None).len(),
{
    lemma_walk_entries(s, max_depth, cap, None);
    lemma_walk_len(s, max_depth, cap, None);
    lemma_walk_len(s, max_depth, s.len() as int, None);
    if cap <= s.len() {
        lemma_walk_cap(s, max_depth, cap, s.len() as int, None);
    } else {
        lemma_walk_cap(s, max_depth, s.len() as int, cap, None);
    }
}

/// Lifts an optional machine depth to its mathematical form.
pub open spec fn opt_int(o: Option<usize>) -> Option<int> {
    match o {
        Some(d) => Some(d as int),
        None => None,
    }
}

/// Walks the traversal stream under the two caps, yielding the entries that
/// `walk_spec` selects, in stream order.
pub fn bounded_walk(entries: Vec<WalkEntry>, max_depth: usize, max_entries: usize) -> (r: Vec<
    WalkEntry,
>)
    ensures
        r@ == walk_spec(entries@, max_depth as int, max_entries as int, None),
{
    let ghost orig = entries@;
    let mut src = entries;
    let mut out: Vec<WalkEntry> = Vec::new();
    let mut skip_depth: Option<usize> = None;
    proof {
        assert(out@ + walk_spec(src@, max_depth as int, max_entries as int, opt_int(skip_depth))
            =~= walk_spec(orig, max_depth as int, max_entries as int, None));
    }
    while src.len() > 0 && out.len() < max_entries
        invariant
            out@.len() <= max_entries,
            walk_spec(orig, max_depth as int, max_entries as int, None) == out@ + walk_spec(
                src@,
                max_depth as int,
                max_entries - out@.len(),
                opt_int(skip_depth),
            ),
        decreases src@.len(),
    {
        let ghost pre = src@;
        let ghost rem = max_entries - out@.len();
        let ghost sk = opt_int(skip_depth);
        let e = src.remove(0);
        proof {
            assert(pre[0] == e);
            assert(pre.drop_first() =~= src@);
        }
        let in_skip = match skip_depth {
            Some(d) => e.depth > d,
            None => false,
        };
        if in_skip {
            proof {
                assert(walk_spec(pre, max_depth as int, rem, sk) == walk_spec(
                    src@,
                    max_depth as int,
                    rem,
                    sk,
                ));
            }
        } else if e.depth > max_depth {
            skip_depth = None;
        } else if starts_with_dot(e.name.as_str()) {
            if e.is_dir {
                skip_depth = Some(e.depth);
            } else {
                skip_depth = None;
            }
        } else if e.is_dir {
            skip_depth = None;
        } else {
            skip_depth = None;
            let ghost pre_out = out@;
            out.push(e);
            proof {
                assert(walk_spec(pre, max_depth as int, rem, sk) =~= seq![e] + walk_spec(
                    src@,
                    max_depth as int,
                    rem - 1,
                    None,
                ));
                assert(pre_out + walk_spec(pre, max_depth as int, rem, sk) =~= out@ + walk_spec(
                    src@,
                    max_depth as int,
                    rem - 1,
                    None,
                ));
            }
        }
    }
    proof {
        if out@.len() >= max_entries {
            assert(walk_spec(src@, max_depth as int, max_entries - out@.len(), opt_int(skip_depth))
                =~= Seq::<WalkEntry>::empty());
        } else {
            assert(src@.len() == 0);
            assert(walk_spec(src@, max_depth as int, max_entries - out@.len(), opt_int(skip_depth))
                =~= Seq::<WalkEntry>::empty());
        }
        assert(out@ + Seq::<WalkEntry>::empty() =~= out@);
    }
    out
}

} // verus!
