//! Decision logic of the batch move executor: which decisions are skipped,
//! what the target filename is, how a name collision is resolved with a
//! numeric suffix without ever overwriting, and how per-item outcomes are
//! tallied. The filesystem actions themselves are performed by the shell,
//! which reports one event per attempted decision.

use vstd::prelude::*;
use vstd::string::{StrSliceExecFns, StringExecFns};
use crate::seqtools::{count_where, lemma_count_pointwise};
use crate::text::{
    stem_of, ext_with_dot_of, dec_rep, dot_split_index, lemma_dot_split_idx_range,
    lemma_dec_rep_len, lemma_dec_rep_injective, append_decimal,
};
use crate::types::{MoveDecision, MoveResult};

verus! {

/// Plan for one decision: either no filesystem interaction at all, or an
/// attempt to place the source under the given file name.
pub enum MovePlan {
    Skip,
    Attempt { target_name: String },
}

/// What the shell reports after acting on one non-skipped decision.
pub enum MoveEvent {
    SourceMissing,
    FolderUnavailable,
    Renamed,
    Copied,
    TransferFailed,
}

/// Where one decision finally lands in the tally.
pub enum ItemOutcome {
    Moved,
    Failed,
    Skipped,
}

/// Target filename of a decision: the suggested name when renaming is on and
/// a suggestion exists, else the original filename.
pub open spec fn spec_target_name(d: MoveDecision, apply_renaming: bool) -> Seq<char> {
    match d.suggested_name {
        Some(s) => if apply_renaming {
            s@
        } else {
            d.filename@
        },
        None => d.filename@,
    }
}

/// Plans one decision: skipped exactly when not selected, else an attempt
/// under the computed target filename.
pub fn plan_decision(d: &MoveDecision, apply_renaming: bool) -> (p: MovePlan)
    ensures
        (p is Skip) <==> !d.apply,
        p matches MovePlan::Attempt { target_name } ==> target_name@ == spec_target_name(
            *d,
            apply_renaming,
        ),
{
    if !d.apply {
        MovePlan::Skip
    } else {
        let name = if apply_renaming {
            match &d.suggested_name {
                Some(s) => s.clone(),
                None => d.filename.clone(),
            }
        } else {
            d.filename.clone()
        };
        MovePlan::Attempt { target_name: name }
    }
}

/// Candidate name for collision number `k`: stem, underscore, counter,
/// then the dotted extension.
pub open spec fn suffixed_name(name: Seq<char>, k: nat) -> Seq<char> {
    stem_of(name) + "_"@ + dec_rep(k) + ext_with_dot_of(name)
}

/// Whether some existing name equals `c`.
pub open spec fn name_taken(existing: Seq<String>, c: Seq<char>) -> bool {
    exists|i: int| 0 <= i < existing.len() && existing[i]@ == c
}

fn is_taken(existing: &Vec<String>, c: &String) -> (r: bool)
    ensures
        r == name_taken(existing@, c@),
{
    let n = existing.len();
    let mut i: usize = 0;
    while i < n
        invariant
            n == existing@.len(),
            0 <= i <= n,
            forall|j: int| 0 <= j < i ==> existing@[j]@ != c@,
        decreases n - i,
    {
        if existing[i] == *c {
            return true;
        }
        i += 1;
    }
    false
}

/// Suffixed candidates with distinct counters are distinct names.
proof fn lemma_suffixed_injective(name: Seq<char>, a: nat, b: nat)
    requires
        suffixed_name(name, a) == suffixed_name(name, b),
    ensures
        a == b,
{
    let s = stem_of(name);
    let e = ext_with_dot_of(name);
    lemma_dec_rep_len(a);
    lemma_dec_rep_len(b);
    let ca = s + "_"@ + dec_rep(a) + e;
    let cb = s + "_"@ + dec_rep(b) + e;
    assert(ca.len() == s.len() + "_"@.len() + dec_rep(a).len() + e.len());
    assert(cb.len() == s.len() + "_"@.len() + dec_rep(b).len() + e.len());
    assert(dec_rep(a).len() == dec_rep(b).len());
    assert forall|i: int| 0 <= i < dec_rep(a).len() implies dec_rep(a)[i] == dec_rep(b)[i] by {
        let off = s.len() + "_"@.len();
        assert(ca[off + i] == dec_rep(a)[i]);
        assert(cb[off + i] == dec_rep(b)[i]);
    }
    assert(dec_rep(a) =~= dec_rep(b));
    lemma_dec_rep_injective(a, b);
}

/// If every candidate below `k` collides with an existing name, `k` cannot
/// exceed the number of existing names by more than one.
proof fn lemma_candidate_bound(target: Seq<char>, existing: Seq<String>, k: nat)
    requires
        forall|j: nat| 1 <= j < k ==> name_taken(existing, #[trigger] suffixed_name(target, j)),
    ensures
        k <= existing.len() + 1,
{
    broadcast use vstd::seq_lib::seq_to_set_is_finite;
    broadcast use vstd::set::group_set_axioms;

    if k > existing.len() + 1 {
        let cands = Seq::new((k - 1) as nat, |j: int| suffixed_name(target, (j + 1) as nat));
        assert(cands.no_duplicates()) by {
            assert forall|i: int, j: int|
                0 <= i < cands.len() && 0 <= j < cands.len() && i != j implies cands[i]
                != cands[j] by {
                if cands[i] == cands[j] {
                    lemma_suffixed_injective(target, (i + 1) as nat, (j + 1) as nat);
                }
            }
        }
        let views = existing.map_values(|s: String| s@);
        assert forall|i: int| 0 <= i < cands.len() implies views.contains(#[trigger] cands[i]) by {
            assert(name_taken(existing, suffixed_name(target, (i + 1) as nat)));
            let idx = choose|idx: int|
                0 <= idx < existing.len() && existing[idx]@ == suffixed_name(
                    target,
                    (i + 1) as nat,
                );
            assert(views[idx] == cands[i]);
        }
        cands.unique_seq_to_set();
        views.lemma_cardinality_of_set();
        assert(cands.to_set() <= views.to_set()) by {
            assert forall|x: Seq<char>| cands.to_set().contains(x) implies views.to_set().contains(
                x,
            ) by {
                assert(cands.contains(x));
                let i = choose|i: int| 0 <= i < cands.len() && cands[i] == x;
                assert(views.contains(cands[i]));
            }
        }
        vstd::set_lib::lemma_len_subset(cands.to_set(), views.to_set());
        assert(false);
    }
}

/// Resolves a destination filename against the names already present: the
/// target itself when free, else the first candidate `stem_k.ext` (counting
/// from one) that is free. The result never collides with an existing name.
pub fn resolve_target_name(target: &String, existing: &Vec<String>) -> (r: String)
    requires
        existing@.len() < usize::MAX,
    ensures
        !name_taken(existing@, r@),
        !name_taken(existing@, target@) ==> r@ == target@,
        name_taken(existing@, target@) ==> exists|k: nat|
            1 <= k && r@ == #[trigger] suffixed_name(target@, k) && (forall|j: nat|
                1 <= j < k ==> name_taken(existing@, #[trigger] suffixed_name(target@, j))),
{
    if !is_taken(existing, target) {
        return target.clone();
    }
    let n = target.as_str().unicode_len();
    let idx = dot_split_index(target.as_str());
    proof {
        lemma_dot_split_idx_range(target@);
    }
    let stem = target.as_str().substring_char(0, idx);
    let ext = target.as_str().substring_char(idx, n);
    let mut k: u64 = 1;
    loop
        invariant
            stem@ == stem_of(target@),
            ext@ == ext_with_dot_of(target@),
            1 <= k,
            k <= existing@.len() + 1,
            existing@.len() < usize::MAX,
            forall|j: nat| 1 <= j < k ==> name_taken(existing@, #[trigger] suffixed_name(
                target@,
                j,
            )),
            name_taken(existing@, target@),
        decreases existing@.len() + 1 - k,
    {
        let mut cand = stem.to_owned();
        cand.append("_");
        append_decimal(&mut cand, k);
        cand.append(ext);
        proof {
            assert(cand@ == suffixed_name(target@, k as nat));
        }
        if !is_taken(existing, &cand) {
            return cand;
        }
        proof {
            lemma_candidate_bound(target@, existing@, (k + 1) as nat);
        }
        k += 1;
    }
}

/// The outcome a reported event counts as: a rename or a completed copy is a
/// success, anything else an independent per-item failure.
pub open spec fn outcome_of_event(ev: MoveEvent) -> ItemOutcome {
    match ev {
        MoveEvent::Renamed => ItemOutcome::Moved,
        MoveEvent::Copied => ItemOutcome::Moved,
        MoveEvent::SourceMissing => ItemOutcome::Failed,
        MoveEvent::FolderUnavailable => ItemOutcome::Failed,
        MoveEvent::TransferFailed => ItemOutcome::Failed,
    }
}

/// Judges one reported event.
pub fn judge_event(ev: &MoveEvent) -> (o: ItemOutcome)
    ensures
        o == outcome_of_event(*ev),
{
    match ev {
        MoveEvent::Renamed => ItemOutcome::Moved,
        MoveEvent::Copied => ItemOutcome::Moved,
        MoveEvent::SourceMissing => ItemOutcome::Failed,
        MoveEvent::FolderUnavailable => ItemOutcome::Failed,
        MoveEvent::TransferFailed => ItemOutcome::Failed,
    }
}

/// Tallies the per-item outcomes of a batch: every item lands in exactly one
/// of the three counters.
pub fn tally_outcomes(outcomes: &Vec<ItemOutcome>) -> (r: MoveResult)
    ensures
        r.successful == count_where(outcomes@, |o: ItemOutcome| o is Moved),
        r.failed == count_where(outcomes@, |o: ItemOutcome| o is Failed),
        r.skipped == count_where(outcomes@, |o: ItemOutcome| o is Skipped),
        r.successful + r.failed + r.skipped == outcomes@.len(),
{
    let n = outcomes.len();
    let mut successful: usize = 0;
    let mut failed: usize = 0;
    let mut skipped: usize = 0;
    let mut i: usize = 0;
    proof {
        assert(outcomes@.take(0) =~= Seq::<ItemOutcome>::empty());
    }
    while i < n
        invariant
            n == outcomes@.len(),
            0 <= i <= n,
            successful == count_where(outcomes@.take(i as int), |o: ItemOutcome| o is Moved),
            failed == count_where(outcomes@.take(i as int), |o: ItemOutcome| o is Failed),
            skipped == count_where(outcomes@.take(i as int), |o: ItemOutcome| o is Skipped),
            successful + failed + skipped == i,
        decreases n - i,
    {
        proof {
            assert(outcomes@.take(i + 1).drop_last() =~= outcomes@.take(i as int));
            assert(outcomes@.take(i + 1) =~= outcomes@.take(i as int).push(outcomes@[i as int]));
            crate::seqtools::lemma_sum_by_push(
                outcomes@.take(i as int),
                outcomes@[i as int],
                |o: ItemOutcome| if o is Moved {
                    1int
                } else {
                    0int
                },
            );
            crate::seqtools::lemma_sum_by_push(
                outcomes@.take(i as int),
                outcomes@[i as int],
                |o: ItemOutcome| if o is Failed {
                    1int
                } else {
                    0int
                },
            );
            crate::seqtools::lemma_sum_by_push(
                outcomes@.take(i as int),
                outcomes@[i as int],
                |o: ItemOutcome| if o is Skipped {
                    1int
                } else {
                    0int
                },
            );
        }
        match outcomes[i] {
            ItemOutcome::Moved => successful += 1,
            ItemOutcome::Failed => failed += 1,
            ItemOutcome::Skipped => skipped += 1,
        }
        i += 1;
    }
    proof {
        assert(outcomes@.take(n as int) =~= outcomes@);
    }
    MoveResult { successful, failed, skipped }
}

/// Batch accounting: when the skipped items are exactly the unselected
/// decisions, the tally's skipped counter equals the number of unselected
/// decisions, and successes plus failures account for all the rest.
pub proof fn lemma_batch_accounting(
    decisions: Seq<MoveDecision>,
    outcomes: Seq<ItemOutcome>,
    m: MoveResult,
)
    requires
        outcomes.len() == decisions.len(),
        forall|i: int|
            0 <= i < decisions.len() ==> ((#[trigger] outcomes[i] is Skipped) <==> !decisions[i].apply),
        m.successful == count_where(outcomes, |o: ItemOutcome| o is Moved),
        m.failed == count_where(outcomes, |o: ItemOutcome| o is Failed),
        m.skipped == count_where(outcomes, |o: ItemOutcome| o is Skipped),
        m.successful + m.failed + m.skipped == outcomes.len(),
    ensures
        m.skipped == count_where(decisions, |d: MoveDecision| !d.apply),
        m.successful + m.failed == decisions.len() - count_where(
            decisions,
            |d: MoveDecision| !d.apply,
        ),
{
    lemma_count_pointwise(
        outcomes,
        decisions,
        |o: ItemOutcome| o is Skipped,
        |d: MoveDecision| !d.apply,
    );
}

} // verus!
