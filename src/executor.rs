//! Carrying out the decisions: the per-group deletion protocol, and the
//! accounting of what was (or would be) freed.
//!
//! The filesystem work itself is done by the caller, which asks
//! [`next_step`] what to do, does it, and hands back the outcome.
use vstd::prelude::*;
use crate::model::{ArtifactGroup, sum_selected, sum_selected_upto, total_size};

verus! {

/// What to do next while removing one group.
#[derive(PartialEq, Eq, Structural, Debug, Clone, Copy)]
pub enum DeletionStep {
    /// Remove the group's file with this index.
    RemoveFile(usize),
    /// Every file is gone: remove the unit's bookkeeping record.
    RemoveRecord,
    /// Nothing more to do for this group.
    Finish,
}

/// Every file removal so far succeeded.
pub open spec fn all_ok(results: Seq<bool>) -> bool {
    forall|k: int| 0 <= k < results.len() ==> results[k]
}

/// The next step for a group of `n_files` files, given the outcomes of the
/// file removals done so far, in file order. Nothing is removed in a dry run
/// or from a group not marked for removal (`remove`); after a failed removal the group is abandoned, so its record stays; the
/// record goes only once every file is gone.
pub open spec fn step_for(apply: bool, remove: bool, n_files: int, results: Seq<bool>) -> DeletionStep {
    if !apply || !remove || !all_ok(results) || results.len() > n_files {
        DeletionStep::Finish
    } else if results.len() < n_files {
        DeletionStep::RemoveFile(results.len() as usize)
    } else {
        DeletionStep::RemoveRecord
    }
}

/// Next step of the deletion protocol for one group.
pub fn next_step(apply: bool, remove: bool, n_files: usize, results: &Vec<bool>) -> (r: DeletionStep)
    ensures
        r == step_for(apply, remove, n_files as int, results@),
{
    if !apply || !remove || results.len() > n_files {
        return DeletionStep::Finish;
    }
    let mut k: usize = 0;
    while k < results.len()
        invariant
            k <= results@.len(),
            forall|x: int| 0 <= x < k ==> results@[x],
        decreases results.len() - k,
    {
        if !results[k] {
            return DeletionStep::Finish;
        }
        k = k + 1;
    }
    if results.len() < n_files {
        DeletionStep::RemoveFile(results.len())
    } else {
        DeletionStep::RemoveRecord
    }
}

/// A group counts as freed when every file and then its record were removed.
pub open spec fn freed_spec(n_files: int, results: Seq<bool>, record_removed: bool) -> bool {
    results.len() == n_files && all_ok(results) && record_removed
}

/// Whether a group was removed completely: all `n_files` files, then its record.
pub fn group_freed(n_files: usize, results: &Vec<bool>, record_removed: bool) -> (r: bool)
    ensures
        r == freed_spec(n_files as int, results@, record_removed),
{
    if results.len() != n_files || !record_removed {
        return false;
    }
    let mut k: usize = 0;
    while k < results.len()
        invariant
            k <= results@.len(),
            forall|x: int| 0 <= x < k ==> results@[x],
        decreases results.len() - k,
    {
        if !results[k] {
            return false;
        }
        k = k + 1;
    }
    true
}

/// Group atomicity: the protocol asks to remove a group's record only after
/// every one of its files was removed; once a file removal fails it asks for
/// nothing more, so the record stays and the group is not counted as freed;
/// and a group that is not freed is never credited when applying.
pub proof fn lemma_deletion_atomic(
    apply: bool,
    remove: bool,
    n_files: int,
    results: Seq<bool>,
    decisions: Seq<bool>,
    freed: Seq<bool>,
    i: int,
)
    ensures
        step_for(apply, remove, n_files, results) == DeletionStep::RemoveRecord ==> apply && remove
            && results.len() == n_files && all_ok(results),
        (exists|k: int| 0 <= k < results.len() && !results[k]) ==> step_for(
            apply,
            remove,
            n_files,
            results,
        ) == DeletionStep::Finish && !freed_spec(n_files, results, true),
        freed_spec(n_files, results, true) ==> all_ok(results) && results.len() == n_files,
        !freed[i] ==> !credited(decisions, freed, true, i),
{
}

/// Dry-run purity: without `apply`, and for a group not marked for removal,
/// the protocol asks for no removal at all.
pub proof fn lemma_dry_run_pure(remove: bool, n_files: int, results: Seq<bool>)
    ensures
        step_for(false, remove, n_files, results) == DeletionStep::Finish,
        step_for(true, false, n_files, results) == DeletionStep::Finish,
{
}

/// The retention policy behind a decision.
#[derive(PartialEq, Eq, Structural, Debug, Clone, Copy)]
pub enum PolicyKind {
    Age,
    Toolchain,
    Size,
}

/// The verdict on one group, for display.
#[derive(Debug)]
pub struct EvictionDecision {
    pub remove: bool,
    pub policy: PolicyKind,
    pub total_size: u64,
}

/// One decision per group: the policy's verdict, the policy, and the group's size.
pub fn decision_list(groups: &Vec<ArtifactGroup>, verdicts: &Vec<bool>, policy: PolicyKind) -> (r: Vec<
    EvictionDecision,
>)
    requires
        verdicts@.len() == groups@.len(),
    ensures
        r@.len() == groups@.len(),
        forall|i: int|
            0 <= i < r@.len() ==> (#[trigger] r@[i]).remove == verdicts@[i] && r@[i].policy == policy
                && r@[i].total_size == groups@[i].total_size,
{
    let mut out: Vec<EvictionDecision> = Vec::new();
    let mut i: usize = 0;
    while i < groups.len()
        invariant
            i <= groups@.len(),
            verdicts@.len() == groups@.len(),
            out@.len() == i,
            forall|x: int|
                0 <= x < i ==> (#[trigger] out@[x]).remove == verdicts@[x] && out@[x].policy == policy
                    && out@[x].total_size == groups@[x].total_size,
        decreases groups.len() - i,
    {
        out.push(EvictionDecision { remove: verdicts[i], policy, total_size: groups[i].total_size });
        i = i + 1;
    }
    out
}

/// Outcome of evicting the groups of one cache root.
#[derive(Debug)]
pub struct EvictionReport {
    /// Bytes freed, or in a dry run the bytes that would be freed.
    pub reclaimed: u64,
    /// Groups removed (in a dry run: marked for removal).
    pub removed: usize,
    /// Groups kept, counting those whose removal failed.
    pub kept: usize,
    /// Indices, ascending, of the groups marked for removal that could not be
    /// removed completely.
    pub failed: Vec<usize>,
}

/// Group `i` is credited: it is marked for removal and, unless this is a dry
/// run, it was removed completely.
pub open spec fn credited(decisions: Seq<bool>, freed: Seq<bool>, apply: bool, i: int) -> bool {
    decisions[i] && (!apply || freed[i])
}

/// Group `i` was marked for removal, and removing it failed.
pub open spec fn failed_at(decisions: Seq<bool>, freed: Seq<bool>, apply: bool, i: int) -> bool {
    0 <= i < decisions.len() && decisions[i] && apply && !freed[i]
}

/// Number of the first `n` groups that are credited.
pub open spec fn credited_count(decisions: Seq<bool>, freed: Seq<bool>, apply: bool, n: int) -> int
    decreases n,
{
    if n <= 0 {
        0
    } else {
        credited_count(decisions, freed, apply, n - 1) + if credited(decisions, freed, apply, n - 1) {
            1int
        } else {
            0
        }
    }
}

proof fn lemma_credited_count_bounds(decisions: Seq<bool>, freed: Seq<bool>, apply: bool, n: int)
    requires
        n >= 0,
    ensures
        0 <= credited_count(decisions, freed, apply, n) <= n,
    decreases n,
{
    if n > 0 {
        lemma_credited_count_bounds(decisions, freed, apply, n - 1);
    }
}

/// The report for `groups`, given each group's decision (`true`: remove) and,
/// when `apply` is set, whether each group was freed. Only freed groups are
/// credited when applying; in a dry run every group marked for removal is.
pub fn tally(groups: &Vec<ArtifactGroup>, decisions: &Vec<bool>, freed: &Vec<bool>, apply: bool) -> (r:
    EvictionReport)
    requires
        decisions@.len() == groups@.len(),
        freed@.len() == groups@.len(),
        total_size(groups@) <= u64::MAX,
    ensures
        r.reclaimed == sum_selected(groups@, |i: int| credited(decisions@, freed@, apply, i)),
        r.removed == credited_count(decisions@, freed@, apply, groups@.len() as int),
        r.removed + r.kept == groups@.len(),
        forall|k: int|
            0 <= k < r.failed@.len() ==> failed_at(decisions@, freed@, apply, #[trigger] r.failed@[k] as int),
        forall|k: int, l: int| 0 <= k < l < r.failed@.len() ==> r.failed@[k] < r.failed@[l],
        forall|i: int|
            0 <= i < groups@.len() && decisions@[i] && apply && !freed@[i] ==> r.failed@.contains(
                i as usize,
            ),
{
    let ghost sel = |i: int| credited(decisions@, freed@, apply, i);
    let mut reclaimed: u64 = 0;
    let mut removed: usize = 0;
    let mut failed: Vec<usize> = Vec::new();
    let mut i: usize = 0;
    while i < groups.len()
        invariant
            i <= groups@.len(),
            decisions@.len() == groups@.len(),
            freed@.len() == groups@.len(),
            total_size(groups@) <= u64::MAX,
            sel == (|i: int| credited(decisions@, freed@, apply, i)),
            reclaimed == sum_selected_upto(groups@, sel, i as int),
            removed == credited_count(decisions@, freed@, apply, i as int),
            forall|k: int|
                0 <= k < failed@.len() ==> (#[trigger] failed@[k]) < i && failed_at(decisions@, freed@, apply, failed@[k] as int),
            forall|k: int, l: int| 0 <= k < l < failed@.len() ==> failed@[k] < failed@[l],
            forall|x: int|
                0 <= x < i && decisions@[x] && apply && !freed@[x] ==> failed@.contains(x as usize),
        decreases groups.len() - i,
    {
        proof {
            crate::model::lemma_sum_selected_bounds(groups@, sel, i + 1);
            crate::model::lemma_sum_sizes_prefix(groups@, i + 1, groups@.len() as int);
            lemma_credited_count_bounds(decisions@, freed@, apply, i as int);
        }
        if decisions[i] {
            if !apply || freed[i] {
                reclaimed = reclaimed + groups[i].total_size;
                removed = removed + 1;
            } else {
                let ghost before = failed@;
                failed.push(i);
                proof {
                    assert forall|k: int| 0 <= k < failed@.len() implies (#[trigger] failed@[k]) < i + 1
                        && failed_at(decisions@, freed@, apply, failed@[k] as int) by {
                        if k < before.len() {
                            assert(failed@[k] == before[k]);
                        }
                    }
                    assert forall|x: int|
                        0 <= x < i + 1 && decisions@[x] && apply && !freed@[x] implies failed@.contains(
                        x as usize,
                    ) by {
                        if x < i {
                            let k = choose|k: int| 0 <= k < before.len() && before[k] == x as usize;
                            assert(failed@[k] == x as usize);
                        } else {
                            assert(failed@[before.len() as int] == x as usize);
                        }
                    }
                }
            }
        }
        i = i + 1;
    }
    proof {
        lemma_credited_count_bounds(decisions@, freed@, apply, groups@.len() as int);
    }
    EvictionReport { reclaimed, removed, kept: groups.len() - removed, failed }
}

/// A dry run reports exactly the bytes of the groups that the policy marked:
/// with the verdicts of any selector, `tally`'s total is that selector's sum.
pub proof fn lemma_dry_run_total(
    groups: Seq<ArtifactGroup>,
    decisions: Seq<bool>,
    freed: Seq<bool>,
    sel: spec_fn(int) -> bool,
)
    requires
        decisions.len() == groups.len(),
        forall|i: int| 0 <= i < groups.len() ==> decisions[i] == #[trigger] sel(i),
    ensures
        sum_selected(groups, |i: int| credited(decisions, freed, false, i)) == sum_selected(groups, sel),
{
    crate::model::lemma_sum_selected_ext(
        groups,
        |i: int| credited(decisions, freed, false, i),
        sel,
        groups.len() as int,
    );
}

/// Dry-run fidelity: when every group marked for removal is then freed, a
/// dry run reports exactly the bytes and counts that applying reports.
pub proof fn lemma_dry_run_matches_apply(groups: Seq<ArtifactGroup>, decisions: Seq<bool>, freed: Seq<bool>)
    requires
        decisions.len() == groups.len(),
        freed.len() == groups.len(),
        forall|i: int| 0 <= i < groups.len() && decisions[i] ==> freed[i],
    ensures
        sum_selected(groups, |i: int| credited(decisions, freed, false, i)) == sum_selected(
            groups,
            |i: int| credited(decisions, freed, true, i),
        ),
        credited_count(decisions, freed, false, groups.len() as int) == credited_count(
            decisions,
            freed,
            true,
            groups.len() as int,
        ),
{
    crate::model::lemma_sum_selected_ext(
        groups,
        |i: int| credited(decisions, freed, false, i),
        |i: int| credited(decisions, freed, true, i),
        groups.len() as int,
    );
    lemma_credited_count_ext(decisions, freed, groups.len() as int);
}

proof fn lemma_credited_count_ext(decisions: Seq<bool>, freed: Seq<bool>, n: int)
    requires
        n <= decisions.len(),
        n <= freed.len(),
        forall|i: int| 0 <= i < n && decisions[i] ==> freed[i],
    ensures
        credited_count(decisions, freed, false, n) == credited_count(decisions, freed, true, n),
    decreases n,
{
    if n > 0 {
        lemma_credited_count_ext(decisions, freed, n - 1);
    }
}

} // verus!
