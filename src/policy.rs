//! Retention policies: which artifact groups are selected for removal.
//!
//! Each selector returns one flag per group, `true` for "remove"; none of
//! them touches the filesystem.
use vstd::prelude::*;
use crate::model::{
    ArtifactGroup, lex_lt, sum_selected, sum_selected_upto, sum_sizes_upto, total_size,
    lemma_lex_lt_irreflexive, lemma_lex_lt_transitive, lemma_sum_selected_all,
    lemma_sum_selected_bounds, lemma_sum_selected_mono, lemma_sum_selected_disjoint,
};

verus! {

/// Group `j` is evicted before group `i` by the size policy: it was built
/// earlier, or at the same time with a smaller identifier.
pub open spec fn precedes(g: Seq<ArtifactGroup>, j: int, i: int) -> bool {
    g[j].unit.last_modified < g[i].unit.last_modified || (g[j].unit.last_modified
        == g[i].unit.last_modified && lex_lt(g[j].unit.unit_id@, g[i].unit.unit_id@))
}

/// Total size of the groups that the size policy considers before group `i`.
pub open spec fn older_sum(g: Seq<ArtifactGroup>, i: int) -> int {
    sum_selected(g, |j: int| precedes(g, j, i))
}

/// The size policy removes group `i`: once every group before it is gone,
/// the cache still exceeds the budget.
pub open spec fn size_evicts(g: Seq<ArtifactGroup>, budget: int, i: int) -> bool {
    total_size(g) - older_sum(g, i) > budget
}

/// Byte-wise lexicographic comparison of two identifiers.
pub fn id_less(a: &Vec<u8>, b: &Vec<u8>) -> (r: bool)
    ensures
        r == lex_lt(a@, b@),
{
    let mut k: usize = 0;
    proof {
        assert(a@.subrange(0, a@.len() as int) =~= a@);
        assert(b@.subrange(0, b@.len() as int) =~= b@);
    }
    while k < a.len() && k < b.len()
        invariant
            k <= a.len(),
            k <= b.len(),
            lex_lt(a@, b@) == lex_lt(a@.subrange(k as int, a@.len() as int), b@.subrange(k as int, b@.len() as int)),
        decreases a.len() - k,
    {
        if a[k] != b[k] {
            return a[k] < b[k];
        }
        proof {
            let sa = a@.subrange(k as int, a@.len() as int);
            let sb = b@.subrange(k as int, b@.len() as int);
            assert(sa.drop_first() =~= a@.subrange(k + 1, a@.len() as int));
            assert(sb.drop_first() =~= b@.subrange(k + 1, b@.len() as int));
        }
        k = k + 1;
    }
    k < b.len()
}

/// Whether group `a` comes before group `b` in eviction order.
fn comes_before(a: &ArtifactGroup, b: &ArtifactGroup) -> (r: bool)
    ensures
        r == (a.unit.last_modified < b.unit.last_modified || (a.unit.last_modified
            == b.unit.last_modified && lex_lt(a.unit.unit_id@, b.unit.unit_id@))),
{
    a.unit.last_modified < b.unit.last_modified || (a.unit.last_modified == b.unit.last_modified
        && id_less(&a.unit.unit_id, &b.unit.unit_id))
}

/// Sum of the sizes of all groups.
pub fn total_bytes(groups: &Vec<ArtifactGroup>) -> (r: u64)
    requires
        total_size(groups@) <= u64::MAX,
    ensures
        r == total_size(groups@),
{
    let mut sum: u64 = 0;
    let mut k: usize = 0;
    while k < groups.len()
        invariant
            k <= groups.len(),
            sum == sum_sizes_upto(groups@, k as int),
            total_size(groups@) <= u64::MAX,
        decreases groups.len() - k,
    {
        proof {
            crate::model::lemma_sum_sizes_prefix(groups@, k + 1, groups.len() as int);
        }
        sum = sum + groups[k].total_size;
        k = k + 1;
    }
    sum
}

/// Sum of the sizes of all groups, or `None` when it does not fit in a `u64`.
pub fn checked_total_bytes(groups: &Vec<ArtifactGroup>) -> (r: Option<u64>)
    ensures
        match r {
            Some(t) => t == total_size(groups@),
            None => total_size(groups@) > u64::MAX,
        },
{
    let mut sum: u64 = 0;
    let mut k: usize = 0;
    while k < groups.len()
        invariant
            k <= groups.len(),
            sum == sum_sizes_upto(groups@, k as int),
        decreases groups.len() - k,
    {
        match sum.checked_add(groups[k].total_size) {
            Some(t) => {
                sum = t;
            },
            None => {
                proof {
                    crate::model::lemma_sum_sizes_prefix(groups@, k + 1, groups.len() as int);
                }
                return None;
            },
        }
        k = k + 1;
    }
    Some(sum)
}

/// Size-budget policy. When the groups together exceed `budget` bytes, the
/// oldest groups (ties broken by identifier) are removed one by one until the
/// rest fits; otherwise nothing is removed.
pub fn select_by_size(groups: &Vec<ArtifactGroup>, budget: u64) -> (r: Vec<bool>)
    requires
        total_size(groups@) <= u64::MAX,
    ensures
        r@.len() == groups@.len(),
        forall|i: int| 0 <= i < r@.len() ==> r@[i] == size_evicts(groups@, budget as int, i),
{
    let total = total_bytes(groups);
    let mut out: Vec<bool> = Vec::new();
    let mut i: usize = 0;
    while i < groups.len()
        invariant
            i <= groups.len(),
            total == total_size(groups@),
            out@.len() == i,
            forall|x: int| 0 <= x < i ==> out@[x] == size_evicts(groups@, budget as int, x),
        decreases groups.len() - i,
    {
        let ghost sel = |j: int| precedes(groups@, j, i as int);
        let mut older: u64 = 0;
        let mut j: usize = 0;
        while j < groups.len()
            invariant
                j <= groups.len(),
                i < groups.len(),
                total == total_size(groups@),
                sel == (|j: int| precedes(groups@, j, i as int)),
                older == sum_selected_upto(groups@, sel, j as int),
            decreases groups.len() - j,
        {
            proof {
                crate::model::lemma_sum_selected_bounds(groups@, sel, j + 1);
                crate::model::lemma_sum_sizes_prefix(groups@, j + 1, groups.len() as int);
            }
            if comes_before(&groups[j], &groups[i]) {
                older = older + groups[j].total_size;
            }
            j = j + 1;
        }
        proof {
            crate::model::lemma_sum_selected_bounds(groups@, sel, groups.len() as int);
        }
        out.push(total - older > budget);
        i = i + 1;
    }
    out
}

/// Number of indices below `n` that `sel` marks.
pub open spec fn count_upto(sel: spec_fn(int) -> bool, n: int) -> int
    decreases n,
{
    if n <= 0 {
        0
    } else {
        count_upto(sel, n - 1) + if sel(n - 1) {
            1int
        } else {
            0
        }
    }
}

/// A strictly larger selection counts strictly more.
proof fn lemma_count_strict(a: spec_fn(int) -> bool, b: spec_fn(int) -> bool, n: int, w: int)
    requires
        0 <= w < n,
        forall|i: int| 0 <= i < n && #[trigger] a(i) ==> b(i),
        b(w) && !a(w),
    ensures
        count_upto(a, n) < count_upto(b, n),
    decreases n,
{
    lemma_count_mono(a, b, n - 1);
    if w < n - 1 {
        lemma_count_strict(a, b, n - 1, w);
    }
}

proof fn lemma_count_mono(a: spec_fn(int) -> bool, b: spec_fn(int) -> bool, n: int)
    requires
        forall|i: int| 0 <= i < n && #[trigger] a(i) ==> b(i),
    ensures
        count_upto(a, n) <= count_upto(b, n),
        0 <= count_upto(a, n),
    decreases n,
{
    if n > 0 {
        lemma_count_mono(a, b, n - 1);
    }
}

/// Eviction order is a strict order.
pub proof fn lemma_precedes_order(g: Seq<ArtifactGroup>, a: int, b: int, c: int)
    ensures
        !precedes(g, a, a),
        precedes(g, a, b) && precedes(g, b, c) ==> precedes(g, a, c),
{
    lemma_lex_lt_irreflexive(g[a].unit.unit_id@);
    if precedes(g, a, b) && precedes(g, b, c) && lex_lt(g[a].unit.unit_id@, g[b].unit.unit_id@)
        && lex_lt(g[b].unit.unit_id@, g[c].unit.unit_id@) {
        lemma_lex_lt_transitive(g[a].unit.unit_id@, g[b].unit.unit_id@, g[c].unit.unit_id@);
    }
}

/// A group that comes earlier in eviction order has no more bytes before it.
proof fn lemma_older_sum_mono(g: Seq<ArtifactGroup>, j: int, i: int)
    requires
        0 <= j < g.len(),
        0 <= i < g.len(),
        precedes(g, j, i),
    ensures
        older_sum(g, j) <= older_sum(g, i),
{
    assert forall|k: int| 0 <= k < g.len() && #[trigger] precedes(g, k, j) implies precedes(g, k, i) by {
        lemma_precedes_order(g, k, j, i);
    }
    lemma_sum_selected_mono(g, |k: int| precedes(g, k, j), |k: int| precedes(g, k, i), g.len() as int);
}

/// Groups removed by the size policy form a prefix of the eviction order.
pub proof fn lemma_size_prefix_closed(g: Seq<ArtifactGroup>, budget: int, j: int, i: int)
    requires
        0 <= j < g.len(),
        0 <= i < g.len(),
        precedes(g, j, i),
        size_evicts(g, budget, i),
    ensures
        size_evicts(g, budget, j),
{
    lemma_older_sum_mono(g, j, i);
}

/// From any kept group, a kept group with every group before it removed.
proof fn lemma_first_kept(g: Seq<ArtifactGroup>, budget: int, i: int) -> (m: int)
    requires
        0 <= i < g.len(),
        !size_evicts(g, budget, i),
    ensures
        0 <= m < g.len(),
        !size_evicts(g, budget, m),
        forall|j: int| 0 <= j < g.len() && #[trigger] precedes(g, j, m) ==> size_evicts(g, budget, j),
    decreases count_upto(|j: int| precedes(g, j, i), g.len() as int),
{
    if exists|j: int| 0 <= j < g.len() && #[trigger] precedes(g, j, i) && !size_evicts(g, budget, j) {
        let j = choose|j: int| 0 <= j < g.len() && #[trigger] precedes(g, j, i) && !size_evicts(g, budget, j);
        assert forall|k: int| 0 <= k < g.len() && #[trigger] precedes(g, k, j) implies precedes(g, k, i) by {
            lemma_precedes_order(g, k, j, i);
        }
        lemma_precedes_order(g, j, j, j);
        let a = |k: int| precedes(g, k, j);
        let b = |k: int| precedes(g, k, i);
        lemma_count_strict(a, b, g.len() as int, j);
        lemma_count_mono(a, b, g.len() as int);
        lemma_first_kept(g, budget, j)
    } else {
        i
    }
}

/// Budget law of the size policy: the groups it keeps fit in the budget, the
/// groups it removes are a prefix of the oldest-first order, and that prefix
/// is the shortest that fits: for each removed group, taking away only the
/// groups before it still leaves the cache over budget. A cache at or under
/// budget loses nothing.
pub proof fn lemma_size_budget_met(g: Seq<ArtifactGroup>, budget: int)
    requires
        budget >= 0,
    ensures
        total_size(g) <= budget ==> forall|i: int| 0 <= i < g.len() ==> !#[trigger] size_evicts(g, budget, i),
        total_size(g) - sum_selected(g, |i: int| size_evicts(g, budget, i)) <= budget,
        forall|j: int, i: int|
            0 <= j < g.len() && 0 <= i < g.len() && #[trigger] precedes(g, j, i) && size_evicts(
                g,
                budget,
                i,
            ) ==> size_evicts(g, budget, j),
        forall|i: int|
            0 <= i < g.len() && #[trigger] size_evicts(g, budget, i) ==> total_size(g) - sum_selected(
                g,
                |j: int| precedes(g, j, i),
            ) > budget,
{
    let ev = |i: int| size_evicts(g, budget, i);
    assert forall|i: int| 0 <= i < g.len() implies older_sum(g, i) >= 0 by {
        lemma_sum_selected_bounds(g, |j: int| precedes(g, j, i), g.len() as int);
    }
    assert forall|j: int, i: int|
        0 <= j < g.len() && 0 <= i < g.len() && #[trigger] precedes(g, j, i) && size_evicts(
            g,
            budget,
            i,
        ) implies size_evicts(g, budget, j) by {
        lemma_size_prefix_closed(g, budget, j, i);
    }
    if exists|i: int| 0 <= i < g.len() && !size_evicts(g, budget, i) {
        let i = choose|i: int| 0 <= i < g.len() && !size_evicts(g, budget, i);
        let m = lemma_first_kept(g, budget, i);
        lemma_sum_selected_mono(g, |j: int| precedes(g, j, m), ev, g.len() as int);
    } else {
        lemma_sum_selected_all(g, ev, g.len() as int);
    }
}

/// The age policy removes a unit last built strictly before `cutoff`; a unit
/// built exactly at the cutoff is kept.
pub open spec fn age_evicts(g: Seq<ArtifactGroup>, cutoff: int, i: int) -> bool {
    (g[i].unit.last_modified as int) < cutoff
}

/// The cutoff instant for keeping `keep_secs` seconds of history at `now`:
/// `now - keep_secs`, or the epoch when that would lie before it.
pub open spec fn age_cutoff(now: int, keep_secs: int) -> int {
    if keep_secs <= now {
        now - keep_secs
    } else {
        0
    }
}

/// Cutoff instant for a retention period of `keep_secs` seconds ending at `now`.
pub fn cutoff_for_age(now: u64, keep_secs: u64) -> (r: u64)
    ensures
        r == age_cutoff(now as int, keep_secs as int),
{
    if keep_secs <= now {
        now - keep_secs
    } else {
        0
    }
}

/// Age policy: removes every group whose unit was last built strictly before
/// the instant `cutoff` (seconds since the epoch).
pub fn select_by_age(groups: &Vec<ArtifactGroup>, cutoff: u64) -> (r: Vec<bool>)
    ensures
        r@.len() == groups@.len(),
        forall|i: int| 0 <= i < r@.len() ==> r@[i] == age_evicts(groups@, cutoff as int, i),
{
    let mut out: Vec<bool> = Vec::new();
    let mut i: usize = 0;
    while i < groups.len()
        invariant
            i <= groups.len(),
            out@.len() == i,
            forall|x: int| 0 <= x < i ==> out@[x] == age_evicts(groups@, cutoff as int, x),
        decreases groups.len() - i,
    {
        out.push(groups[i].unit.last_modified < cutoff);
        i = i + 1;
    }
    out
}

/// Age monotonicity: a later cutoff instant removes every group that an
/// earlier one removes; equivalently, keeping a longer history never removes
/// a group that a shorter history keeps.
pub proof fn lemma_age_monotonic(g: Seq<ArtifactGroup>, d1: int, d2: int, now: int, k1: int, k2: int)
    requires
        d1 < d2,
        0 <= k1 <= k2,
    ensures
        forall|i: int| 0 <= i < g.len() && age_evicts(g, d1, i) ==> #[trigger] age_evicts(g, d2, i),
        forall|i: int|
            0 <= i < g.len() && age_evicts(g, age_cutoff(now, k2), i) ==> #[trigger] age_evicts(
                g,
                age_cutoff(now, k1),
                i,
            ),
{
}

/// The toolchain keep-set as a set of byte strings.
pub open spec fn keep_view(keep: Seq<Vec<u8>>) -> Seq<Seq<u8>> {
    keep.map_values(|t: Vec<u8>| t@)
}

/// The toolchain policy removes a unit whose toolchain is known and not kept;
/// a unit whose toolchain is unresolved is always kept.
pub open spec fn toolchain_evicts(g: Seq<ArtifactGroup>, keep: Seq<Seq<u8>>, i: int) -> bool {
    match g[i].unit.toolchain {
        Some(t) => !keep.contains(t@),
        None => false,
    }
}

/// Whether two byte strings are equal.
pub fn same_bytes(a: &Vec<u8>, b: &Vec<u8>) -> (r: bool)
    ensures
        r == (a@ == b@),
{
    if a.len() != b.len() {
        return false;
    }
    let mut k: usize = 0;
    while k < a.len()
        invariant
            k <= a.len(),
            a.len() == b.len(),
            forall|x: int| 0 <= x < k ==> a@[x] == b@[x],
        decreases a.len() - k,
    {
        if a[k] != b[k] {
            return false;
        }
        k = k + 1;
    }
    assert(a@ =~= b@);
    true
}

/// Whether `t` is one of the toolchains in `keep`.
fn is_kept(keep: &Vec<Vec<u8>>, t: &Vec<u8>) -> (r: bool)
    ensures
        r == keep_view(keep@).contains(t@),
{
    let mut k: usize = 0;
    while k < keep.len()
        invariant
            k <= keep.len(),
            forall|x: int| 0 <= x < k ==> keep@[x]@ != t@,
        decreases keep.len() - k,
    {
        if same_bytes(&keep[k], t) {
            assert(keep_view(keep@)[k as int] == t@);
            return true;
        }
        k = k + 1;
    }
    proof {
        if keep_view(keep@).contains(t@) {
            let x = choose|x: int| 0 <= x < keep_view(keep@).len() && keep_view(keep@)[x] == t@;
            assert(keep@[x]@ == t@);
        }
    }
    false
}

/// Toolchain policy: removes every group built by a toolchain outside `keep`.
/// Groups whose toolchain is unresolved are kept.
pub fn select_by_toolchain(groups: &Vec<ArtifactGroup>, keep: &Vec<Vec<u8>>) -> (r: Vec<bool>)
    ensures
        r@.len() == groups@.len(),
        forall|i: int| 0 <= i < r@.len() ==> r@[i] == toolchain_evicts(groups@, keep_view(keep@), i),
        forall|i: int| 0 <= i < r@.len() && groups@[i].unit.toolchain is None ==> !r@[i],
{
    let mut out: Vec<bool> = Vec::new();
    let mut i: usize = 0;
    while i < groups.len()
        invariant
            i <= groups.len(),
            out@.len() == i,
            forall|x: int| 0 <= x < i ==> out@[x] == toolchain_evicts(groups@, keep_view(keep@), x),
        decreases groups.len() - i,
    {
        let remove = match &groups[i].unit.toolchain {
            Some(t) => !is_kept(keep, t),
            None => false,
        };
        out.push(remove);
        i = i + 1;
    }
    out
}

/// Toolchain conservatism: whatever the keep-set, a group whose toolchain is
/// unresolved is never removed by the toolchain policy.
pub proof fn lemma_unknown_toolchain_kept(g: Seq<ArtifactGroup>, keep: Seq<Seq<u8>>, i: int)
    requires
        0 <= i < g.len(),
        g[i].unit.toolchain is None,
    ensures
        !toolchain_evicts(g, keep, i),
{
}

/// Age monotonicity in bytes: a later cutoff instant removes at least as many
/// bytes as an earlier one, and a longer retention period at most as many as
/// a shorter one.
pub proof fn lemma_age_bytes_monotonic(g: Seq<ArtifactGroup>, d1: int, d2: int, now: int, k1: int, k2: int)
    requires
        d1 < d2,
        0 <= k1 <= k2,
    ensures
        sum_selected(g, |i: int| age_evicts(g, d1, i)) <= sum_selected(g, |i: int| age_evicts(g, d2, i)),
        sum_selected(g, |i: int| age_evicts(g, age_cutoff(now, k2), i)) <= sum_selected(
            g,
            |i: int| age_evicts(g, age_cutoff(now, k1), i),
        ),
{
    lemma_age_monotonic(g, d1, d2, now, k1, k2);
    lemma_sum_selected_mono(
        g,
        |i: int| age_evicts(g, d1, i),
        |i: int| age_evicts(g, d2, i),
        g.len() as int,
    );
    lemma_sum_selected_mono(
        g,
        |i: int| age_evicts(g, age_cutoff(now, k2), i),
        |i: int| age_evicts(g, age_cutoff(now, k1), i),
        g.len() as int,
    );
}

/// Toolchain conservatism in bytes: whatever the keep-set, the bytes the
/// toolchain policy removes come only from groups with a known toolchain, so
/// they never exceed the total less the groups whose toolchain is unresolved.
pub proof fn lemma_unknown_toolchain_bytes_kept(g: Seq<ArtifactGroup>, keep: Seq<Seq<u8>>)
    ensures
        sum_selected(g, |i: int| toolchain_evicts(g, keep, i)) + sum_selected(
            g,
            |i: int| g[i].unit.toolchain is None,
        ) <= total_size(g),
{
    lemma_sum_selected_disjoint(
        g,
        |i: int| toolchain_evicts(g, keep, i),
        |i: int| g[i].unit.toolchain is None,
        g.len() as int,
    );
}

} // verus!
