//! The data the engine works on: compilation units and their artifact groups.
use vstd::prelude::*;

verus! {

/// One bookkeeping record of the build cache.
#[derive(Debug)]
pub struct CompilationUnit {
    /// Name of the record's directory; unique within one cache root.
    pub unit_id: Vec<u8>,
    /// Modification time of the record, in seconds since the epoch.
    pub last_modified: u64,
    /// On-disk size of the record's directory.
    pub record_size: u64,
    /// The toolchain that built the unit, `None` when it could not be resolved.
    pub toolchain: Option<Vec<u8>>,
    /// Build profile (debug, release, ...), kept for reporting only.
    pub profile: String,
}

/// A compilation unit together with every output file that is removed with it.
#[derive(Debug)]
pub struct ArtifactGroup {
    pub unit: CompilationUnit,
    /// Names of the output files that carry the unit's identifier.
    pub files: Vec<Vec<u8>>,
    /// Size of the unit's record plus the on-disk sizes of `files`.
    pub total_size: u64,
}

/// Sum of the sizes of the first `n` groups.
pub open spec fn sum_sizes_upto(g: Seq<ArtifactGroup>, n: int) -> int
    decreases n,
{
    if n <= 0 {
        0
    } else {
        sum_sizes_upto(g, n - 1) + g[n - 1].total_size
    }
}

/// Sum of the sizes of all groups.
pub open spec fn total_size(g: Seq<ArtifactGroup>) -> int {
    sum_sizes_upto(g, g.len() as int)
}

/// Sum of the sizes of the groups among the first `n` that `sel` marks.
pub open spec fn sum_selected_upto(g: Seq<ArtifactGroup>, sel: spec_fn(int) -> bool, n: int) -> int
    decreases n,
{
    if n <= 0 {
        0
    } else {
        sum_selected_upto(g, sel, n - 1) + if sel(n - 1) {
            g[n - 1].total_size as int
        } else {
            0
        }
    }
}

/// Sum of the sizes of the groups that `sel` marks.
pub open spec fn sum_selected(g: Seq<ArtifactGroup>, sel: spec_fn(int) -> bool) -> int {
    sum_selected_upto(g, sel, g.len() as int)
}

/// Sizes summed over a selection are non-negative and bounded by the total.
pub proof fn lemma_sum_selected_bounds(g: Seq<ArtifactGroup>, sel: spec_fn(int) -> bool, n: int)
    requires
        0 <= n <= g.len(),
    ensures
        0 <= sum_selected_upto(g, sel, n) <= sum_sizes_upto(g, n),
    decreases n,
{
    if n > 0 {
        lemma_sum_selected_bounds(g, sel, n - 1);
    }
}

/// Selecting more groups never sums to less.
pub proof fn lemma_sum_selected_mono(
    g: Seq<ArtifactGroup>,
    a: spec_fn(int) -> bool,
    b: spec_fn(int) -> bool,
    n: int,
)
    requires
        0 <= n <= g.len(),
        forall|i: int| 0 <= i < n && #[trigger] a(i) ==> b(i),
    ensures
        sum_selected_upto(g, a, n) <= sum_selected_upto(g, b, n),
    decreases n,
{
    if n > 0 {
        lemma_sum_selected_mono(g, a, b, n - 1);
    }
}

/// Selecting every group sums to the total.
pub proof fn lemma_sum_selected_all(g: Seq<ArtifactGroup>, sel: spec_fn(int) -> bool, n: int)
    requires
        0 <= n <= g.len(),
        forall|i: int| 0 <= i < n ==> #[trigger] sel(i),
    ensures
        sum_selected_upto(g, sel, n) == sum_sizes_upto(g, n),
    decreases n,
{
    if n > 0 {
        lemma_sum_selected_all(g, sel, n - 1);
    }
}

/// Selections that agree on every group sum alike.
pub proof fn lemma_sum_selected_ext(
    g: Seq<ArtifactGroup>,
    a: spec_fn(int) -> bool,
    b: spec_fn(int) -> bool,
    n: int,
)
    requires
        0 <= n <= g.len(),
        forall|i: int| 0 <= i < n ==> #[trigger] a(i) == b(i),
    ensures
        sum_selected_upto(g, a, n) == sum_selected_upto(g, b, n),
    decreases n,
{
    if n > 0 {
        lemma_sum_selected_ext(g, a, b, n - 1);
    }
}

/// Byte-wise lexicographic order on identifiers.
pub open spec fn lex_lt(a: Seq<u8>, b: Seq<u8>) -> bool
    decreases a.len(),
{
    if b.len() == 0 {
        false
    } else if a.len() == 0 {
        true
    } else if a[0] != b[0] {
        a[0] < b[0]
    } else {
        lex_lt(a.drop_first(), b.drop_first())
    }
}

pub proof fn lemma_lex_lt_irreflexive(a: Seq<u8>)
    ensures
        !lex_lt(a, a),
    decreases a.len(),
{
    if a.len() > 0 {
        lemma_lex_lt_irreflexive(a.drop_first());
    }
}

pub proof fn lemma_lex_lt_transitive(a: Seq<u8>, b: Seq<u8>, c: Seq<u8>)
    requires
        lex_lt(a, b),
        lex_lt(b, c),
    ensures
        lex_lt(a, c),
    decreases a.len(),
{
    if a.len() > 0 && b.len() > 0 && c.len() > 0 && a[0] == b[0] && b[0] == c[0] {
        lemma_lex_lt_transitive(a.drop_first(), b.drop_first(), c.drop_first());
    }
}

} // verus!

verus! {

/// A prefix of the groups never sums to more than a longer one.
pub proof fn lemma_sum_sizes_prefix(g: Seq<ArtifactGroup>, m: int, n: int)
    requires
        0 <= m <= n <= g.len(),
    ensures
        0 <= sum_sizes_upto(g, m) <= sum_sizes_upto(g, n),
    decreases n,
{
    if n > m {
        lemma_sum_sizes_prefix(g, m, n - 1);
    } else if m > 0 {
        lemma_sum_sizes_prefix(g, m - 1, m - 1);
    }
}

/// Two selections that share no group sum to at most the total.
pub proof fn lemma_sum_selected_disjoint(
    g: Seq<ArtifactGroup>,
    a: spec_fn(int) -> bool,
    b: spec_fn(int) -> bool,
    n: int,
)
    requires
        0 <= n <= g.len(),
        forall|i: int| 0 <= i < n ==> !(#[trigger] a(i) && b(i)),
    ensures
        sum_selected_upto(g, a, n) + sum_selected_upto(g, b, n) <= sum_sizes_upto(g, n),
    decreases n,
{
    if n > 0 {
        lemma_sum_selected_disjoint(g, a, b, n - 1);
    }
}

} // verus!
