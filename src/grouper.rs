//! Correlates compilation units with the output files that belong to them.
use vstd::prelude::*;
use crate::model::{ArtifactGroup, CompilationUnit};

verus! {

/// One file found in the cache's output directories.
#[derive(Debug)]
pub struct OutputFile {
    pub name: Vec<u8>,
    pub size: u64,
}

/// `id` occurs in `name` at position `p`.
pub open spec fn key_at(name: Seq<u8>, id: Seq<u8>, p: int) -> bool {
    0 <= p && p + id.len() <= name.len() && name.subrange(p, p + id.len()) == id
}

/// `name` carries `id` somewhere in it.
pub open spec fn has_key(name: Seq<u8>, id: Seq<u8>) -> bool {
    exists|p: int| key_at(name, id, p)
}

/// Names, in listing order, of the first `n` output files that carry `id`.
pub open spec fn matching_names(outs: Seq<OutputFile>, id: Seq<u8>, n: int) -> Seq<Seq<u8>>
    decreases n,
{
    if n <= 0 {
        Seq::empty()
    } else if has_key(outs[n - 1].name@, id) {
        matching_names(outs, id, n - 1).push(outs[n - 1].name@)
    } else {
        matching_names(outs, id, n - 1)
    }
}

/// Total size of the first `n` output files that carry `id`.
pub open spec fn matching_size(outs: Seq<OutputFile>, id: Seq<u8>, n: int) -> int
    decreases n,
{
    if n <= 0 {
        0
    } else {
        matching_size(outs, id, n - 1) + if has_key(outs[n - 1].name@, id) {
            outs[n - 1].size as int
        } else {
            0
        }
    }
}

/// Total size of the first `n` output files.
pub open spec fn listing_size(outs: Seq<OutputFile>, n: int) -> int
    decreases n,
{
    if n <= 0 {
        0
    } else {
        listing_size(outs, n - 1) + outs[n - 1].size
    }
}

proof fn lemma_matching_size_bounds(outs: Seq<OutputFile>, id: Seq<u8>, m: int, n: int)
    requires
        0 <= m <= n <= outs.len(),
    ensures
        0 <= matching_size(outs, id, m) <= listing_size(outs, m) <= listing_size(outs, n),
    decreases n,
{
    if n > m {
        lemma_matching_size_bounds(outs, id, m, n - 1);
    } else if m > 0 {
        lemma_matching_size_bounds(outs, id, m - 1, m - 1);
    }
}

/// Total size of the listed output files, or `None` when it does not fit in a `u64`.
pub fn checked_listing_size(outputs: &Vec<OutputFile>) -> (r: Option<u64>)
    ensures
        match r {
            Some(t) => t == listing_size(outputs@, outputs@.len() as int),
            None => listing_size(outputs@, outputs@.len() as int) > u64::MAX,
        },
{
    let mut sum: u64 = 0;
    let mut k: usize = 0;
    while k < outputs.len()
        invariant
            k <= outputs.len(),
            sum == listing_size(outputs@, k as int),
        decreases outputs.len() - k,
    {
        match sum.checked_add(outputs[k].size) {
            Some(t) => {
                sum = t;
            },
            None => {
                proof {
                    lemma_matching_size_bounds(outputs@, Seq::empty(), k + 1, outputs@.len() as int);
                }
                return None;
            },
        }
        k = k + 1;
    }
    Some(sum)
}

/// Whether `id` occurs in `name` at position `p`.
pub(crate) fn contains_key_at(name: &Vec<u8>, id: &Vec<u8>, p: usize) -> (r: bool)
    requires
        p + id@.len() <= name@.len(),
    ensures
        r == key_at(name@, id@, p as int),
{
    let limit = name.len();
    let mut k: usize = 0;
    while k < id.len()
        invariant
            p + id@.len() <= name@.len(),
            limit == name@.len(),
            k <= id.len(),
            forall|x: int| 0 <= x < k ==> name@[p + x] == id@[x],
        decreases id.len() - k,
    {
        if name[p + k] != id[k] {
            assert(name@.subrange(p as int, p + id@.len())[k as int] != id@[k as int]);
            return false;
        }
        k = k + 1;
    }
    assert(name@.subrange(p as int, p + id@.len()) =~= id@);
    true
}

/// Whether `name` carries `id`.
pub fn contains_key(name: &Vec<u8>, id: &Vec<u8>) -> (r: bool)
    ensures
        r == has_key(name@, id@),
{
    if id.len() > name.len() {
        return false;
    }
    let last = name.len() - id.len();
    let mut p: usize = 0;
    loop
        invariant
            last + id@.len() == name@.len(),
            p <= last,
            forall|q: int| 0 <= q < p ==> !key_at(name@, id@, q),
        decreases last - p,
    {
        if contains_key_at(name, id, p) {
            return true;
        }
        if p == last {
            assert forall|q: int| !key_at(name@, id@, q) by {
                if q < p {
                } else if q == p {
                }
            }
            return false;
        }
        p = p + 1;
    }
}

/// A copy of a byte string.
pub fn copy_bytes(v: &Vec<u8>) -> (r: Vec<u8>)
    ensures
        r@ == v@,
{
    let mut out: Vec<u8> = Vec::new();
    let mut k: usize = 0;
    while k < v.len()
        invariant
            k <= v.len(),
            out@ == v@.subrange(0, k as int),
        decreases v.len() - k,
    {
        out.push(v[k]);
        k = k + 1;
        assert(out@ =~= v@.subrange(0, k as int));
    }
    assert(out@ =~= v@);
    out
}

/// The artifact group of `unit`: every output file whose name carries the
/// unit's identifier, and the size of those files and of the unit's record.
/// A unit with no such file forms a group of its record alone.
pub fn group_unit(unit: CompilationUnit, outputs: &Vec<OutputFile>) -> (r: ArtifactGroup)
    requires
        unit.record_size + listing_size(outputs@, outputs@.len() as int) <= u64::MAX,
    ensures
        r.unit == unit,
        r.files@.map_values(|f: Vec<u8>| f@) == matching_names(outputs@, unit.unit_id@, outputs@.len() as int),
        r.total_size == unit.record_size + matching_size(outputs@, unit.unit_id@, outputs@.len() as int),
{
    let mut files: Vec<Vec<u8>> = Vec::new();
    let mut size: u64 = unit.record_size;
    let mut k: usize = 0;
    while k < outputs.len()
        invariant
            k <= outputs.len(),
            unit.record_size + listing_size(outputs@, outputs@.len() as int) <= u64::MAX,
            files@.map_values(|f: Vec<u8>| f@) == matching_names(outputs@, unit.unit_id@, k as int),
            size == unit.record_size + matching_size(outputs@, unit.unit_id@, k as int),
        decreases outputs.len() - k,
    {
        proof {
            lemma_matching_size_bounds(outputs@, unit.unit_id@, k + 1, outputs@.len() as int);
        }
        if contains_key(&outputs[k].name, &unit.unit_id) {
            let name = copy_bytes(&outputs[k].name);
            let ghost before = files@;
            files.push(name);
            assert(files@.map_values(|f: Vec<u8>| f@) =~= before.map_values(|f: Vec<u8>| f@).push(
                outputs@[k as int].name@,
            ));
            size = size + outputs[k].size;
        }
        k = k + 1;
    }
    ArtifactGroup { unit, files, total_size: size }
}

/// Builds the artifact group of every unit, in the units' order.
pub fn group_units(units: Vec<CompilationUnit>, outputs: &Vec<OutputFile>) -> (r: Vec<ArtifactGroup>)
    requires
        forall|i: int|
            0 <= i < units@.len() ==> (#[trigger] units@[i]).record_size + listing_size(
                outputs@,
                outputs@.len() as int,
            ) <= u64::MAX,
    ensures
        r@.len() == units@.len(),
        forall|i: int|
            0 <= i < r@.len() ==> {
                &&& (#[trigger] r@[i]).unit == units@[i]
                &&& r@[i].files@.map_values(|f: Vec<u8>| f@) == matching_names(
                    outputs@,
                    units@[i].unit_id@,
                    outputs@.len() as int,
                )
                &&& r@[i].total_size == units@[i].record_size + matching_size(
                    outputs@,
                    units@[i].unit_id@,
                    outputs@.len() as int,
                )
            },
{
    let ghost all = units@;
    let mut rest = units;
    let mut out: Vec<ArtifactGroup> = Vec::new();
    while rest.len() > 0
        invariant
            forall|i: int|
                0 <= i < all.len() ==> (#[trigger] all[i]).record_size + listing_size(
                    outputs@,
                    outputs@.len() as int,
                ) <= u64::MAX,
            out@.len() + rest@.len() == all.len(),
            rest@ == all.subrange(out@.len() as int, all.len() as int),
            forall|i: int|
                0 <= i < out@.len() ==> {
                    &&& (#[trigger] out@[i]).unit == all[i]
                    &&& out@[i].files@.map_values(|f: Vec<u8>| f@) == matching_names(
                        outputs@,
                        all[i].unit_id@,
                        outputs@.len() as int,
                    )
                    &&& out@[i].total_size == all[i].record_size + matching_size(
                        outputs@,
                        all[i].unit_id@,
                        outputs@.len() as int,
                    )
                },
        decreases rest.len(),
    {
        let unit = rest.remove(0);
        assert(unit == all[out@.len() as int]);
        let group = group_unit(unit, outputs);
        out.push(group);
        assert(rest@ =~= all.subrange(out@.len() as int, all.len() as int));
    }
    out
}

} // verus!
