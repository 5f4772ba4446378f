//! Reading the toolchain out of a unit's bookkeeping record.
//!
//! A record is machine-written JSON; the field of interest is the top-level
//! `"rustc"`, whose value identifies the compiler that built the unit. The
//! value may be written bare (`"rustc":1234`) or quoted (`"rustc":"1.70.0"`).
//! A record that is not one complete top-level object, that has no such
//! top-level field, or whose value is empty leaves the toolchain unresolved.
use vstd::prelude::*;
use crate::grouper::{key_at, copy_bytes};
use crate::model::{CompilationUnit, lex_lt, lemma_lex_lt_irreflexive, lemma_lex_lt_transitive};

verus! {

/// The bytes of `"rustc":`.
pub open spec fn rustc_key() -> Seq<u8> {
    seq![34u8, 114u8, 117u8, 115u8, 116u8, 99u8, 34u8, 58u8]
}

/// Where a scan of a record stands after some prefix of it.
pub struct Scan {
    /// Open objects and arrays.
    pub depth: nat,
    /// Inside a string.
    pub in_str: bool,
    /// Right after a backslash inside a string.
    pub esc: bool,
    /// No byte so far breaks the record's structure.
    pub ok: bool,
    /// The top-level object has been closed.
    pub closed: bool,
}

pub open spec fn is_space(b: u8) -> bool {
    b == 32u8 || b == 9u8 || b == 10u8 || b == 13u8
}

pub open spec fn mk_scan(depth: nat, in_str: bool, esc: bool, ok: bool, closed: bool) -> Scan {
    Scan { depth, in_str, esc, ok, closed }
}

/// One byte of the scan. Outside strings, brackets open and close nesting;
/// before the top-level object only whitespace and `{` may come, and after
/// it only whitespace.
pub open spec fn scan_step(st: Scan, b: u8) -> Scan {
    if !st.ok {
        st
    } else if st.closed {
        if is_space(b) {
            st
        } else {
            mk_scan(st.depth, st.in_str, st.esc, false, st.closed)
        }
    } else if st.in_str {
        if st.esc {
            mk_scan(st.depth, true, false, true, false)
        } else if b == 92u8 {
            mk_scan(st.depth, true, true, true, false)
        } else if b == 34u8 {
            mk_scan(st.depth, false, false, true, false)
        } else {
            st
        }
    } else if st.depth == 0 {
        if is_space(b) {
            st
        } else if b == 123u8 {
            mk_scan(1, false, false, true, false)
        } else {
            mk_scan(0, false, false, false, false)
        }
    } else if b == 34u8 {
        mk_scan(st.depth, true, false, true, false)
    } else if b == 123u8 || b == 91u8 {
        mk_scan(st.depth + 1, false, false, true, false)
    } else if b == 125u8 || b == 93u8 {
        if st.depth == 1 {
            mk_scan(0, false, false, true, true)
        } else {
            mk_scan((st.depth - 1) as nat, false, false, true, false)
        }
    } else {
        st
    }
}

/// The scan after the first `k` bytes of `s`.
pub open spec fn scan(s: Seq<u8>, k: int) -> Scan
    decreases k,
{
    if k <= 0 {
        mk_scan(0, false, false, true, false)
    } else {
        scan_step(scan(s, k - 1), s[k - 1])
    }
}

/// The record is one complete top-level object: brackets balance, strings
/// close, and nothing but whitespace stands around the object.
pub open spec fn well_formed(s: Seq<u8>) -> bool {
    scan(s, s.len() as int).ok && scan(s, s.len() as int).closed
}

/// `"rustc":` starts at `p` as a field of the top-level object itself.
pub open spec fn top_key_at(s: Seq<u8>, p: int) -> bool {
    &&& key_at(s, rustc_key(), p)
    &&& scan(s, p).ok
    &&& !scan(s, p).closed
    &&& !scan(s, p).in_str
    &&& scan(s, p).depth == 1
}

/// First position at or after `p` where the top-level field starts, or -1.
pub open spec fn find_key_from(s: Seq<u8>, p: int) -> int
    decreases s.len() - p,
{
    if p < 0 || p + rustc_key().len() > s.len() {
        -1
    } else if top_key_at(s, p) {
        p
    } else {
        find_key_from(s, p + 1)
    }
}

/// First position at or after `j` that is not a space.
pub open spec fn skip_spaces(s: Seq<u8>, j: int) -> int
    decreases s.len() - j,
{
    if 0 <= j < s.len() && s[j] == 32u8 {
        skip_spaces(s, j + 1)
    } else {
        j
    }
}

/// Bytes that may form a toolchain value: ASCII letters, digits, `.`, `-`, `_`.
pub open spec fn is_value_byte(b: u8) -> bool {
    (48u8 <= b <= 57u8) || (65u8 <= b <= 90u8) || (97u8 <= b <= 122u8) || b == 46u8 || b == 45u8
        || b == 95u8
}

/// End of the run of value bytes that starts at `j`.
pub open spec fn value_end(s: Seq<u8>, j: int) -> int
    decreases s.len() - j,
{
    if 0 <= j < s.len() && is_value_byte(s[j]) {
        value_end(s, j + 1)
    } else {
        j
    }
}

/// Where the value of the field found at `p` begins: after the field name,
/// any spaces, and an opening quote if there is one.
pub open spec fn value_start(s: Seq<u8>, p: int) -> int {
    let j = skip_spaces(s, p + rustc_key().len());
    if 0 <= j < s.len() && s[j] == 34u8 {
        j + 1
    } else {
        j
    }
}

/// The toolchain that a record names, if it names one.
pub open spec fn record_toolchain(s: Seq<u8>) -> Option<Seq<u8>> {
    let p = find_key_from(s, 0);
    if !well_formed(s) || p < 0 {
        None
    } else {
        let start = value_start(s, p);
        let end = value_end(s, start);
        if end > start {
            Some(s.subrange(start, end))
        } else {
            None
        }
    }
}

proof fn lemma_find_key_bounds(s: Seq<u8>, p: int)
    ensures
        find_key_from(s, p) == -1 || (p <= find_key_from(s, p) && find_key_from(s, p)
            + rustc_key().len() <= s.len()),
    decreases s.len() - p,
{
    if !(p < 0 || p + rustc_key().len() > s.len()) && !top_key_at(s, p) {
        lemma_find_key_bounds(s, p + 1);
    }
}

proof fn lemma_skip_spaces_bounds(s: Seq<u8>, j: int)
    requires
        0 <= j <= s.len(),
    ensures
        j <= skip_spaces(s, j) <= s.len(),
    decreases s.len() - j,
{
    if j < s.len() && s[j] == 32u8 {
        lemma_skip_spaces_bounds(s, j + 1);
    }
}

fn is_value_byte_exec(b: u8) -> (r: bool)
    ensures
        r == is_value_byte(b),
{
    (48u8 <= b && b <= 57u8) || (65u8 <= b && b <= 90u8) || (97u8 <= b && b <= 122u8) || b == 46u8
        || b == 45u8 || b == 95u8
}

/// Scans the whole record: whether it is well formed, and where the first
/// top-level `"rustc":` starts.
fn scan_record(s: &Vec<u8>) -> (r: (bool, Option<usize>))
    ensures
        r.0 == well_formed(s@),
        match r.1 {
            Some(p) => find_key_from(s@, 0) == p as int,
            None => find_key_from(s@, 0) == -1,
        },
{
    let key: Vec<u8> = vec![34u8, 114u8, 117u8, 115u8, 116u8, 99u8, 34u8, 58u8];
    assert(key@ =~= rustc_key());
    let n: usize = s.len();
    let mut depth: usize = 0;
    let mut in_str = false;
    let mut esc = false;
    let mut ok = true;
    let mut closed = false;
    let mut found: Option<usize> = None;
    let mut k: usize = 0;
    while k < n
        invariant
            n == s@.len(),
            key@ == rustc_key(),
            k <= n,
            depth <= k,
            !in_str ==> !esc,
            scan(s@, k as int) == mk_scan(depth as nat, in_str, esc, ok, closed),
            match found {
                Some(p) => find_key_from(s@, 0) == p as int,
                None => find_key_from(s@, 0) == find_key_from(s@, k as int),
            },
        decreases n - k,
    {
        if found.is_none() && ok && !closed && !in_str && depth == 1 && n - k >= 8 {
            if crate::grouper::contains_key_at(s, &key, k) {
                found = Some(k);
            }
        }
        let ghost before = mk_scan(depth as nat, in_str, esc, ok, closed);
        let b = s[k];
        let sp = b == 32u8 || b == 9u8 || b == 10u8 || b == 13u8;
        if !ok {
        } else if closed {
            if !sp {
                ok = false;
            }
        } else if in_str {
            if esc {
                esc = false;
            } else if b == 92u8 {
                esc = true;
            } else if b == 34u8 {
                in_str = false;
            }
        } else if depth == 0 {
            if sp {
            } else if b == 123u8 {
                depth = 1;
            } else {
                ok = false;
            }
        } else if b == 34u8 {
            in_str = true;
        } else if b == 123u8 || b == 91u8 {
            depth = depth + 1;
        } else if b == 125u8 || b == 93u8 {
            if depth == 1 {
                closed = true;
            }
            depth = depth - 1;
        }
        assert(scan(s@, k + 1) == scan_step(before, b));
        k = k + 1;
    }
    (ok && closed, found)
}

/// The toolchain that a bookkeeping record names, `None` when it names none.
pub fn parse_toolchain(record: &Vec<u8>) -> (r: Option<Vec<u8>>)
    ensures
        match r {
            Some(t) => record_toolchain(record@) == Some(t@),
            None => record_toolchain(record@) is None,
        },
{
    let (formed, found) = scan_record(record);
    if !formed {
        return None;
    }
    let p = match found {
        Some(p) => p,
        None => return None,
    };
    let ghost s = record@;
    let n: usize = record.len();
    proof {
        lemma_find_key_bounds(s, 0);
        assert(rustc_key().len() == 8);
        assert(p + 8 <= n);
    }
    let mut j: usize = p + 8;
    proof {
        lemma_skip_spaces_bounds(s, j as int);
    }
    while j < record.len() && record[j] == 32u8
        invariant
            p + 8 <= j <= record@.len(),
            skip_spaces(s, p + 8) == skip_spaces(s, j as int),
            s == record@,
        decreases record.len() - j,
    {
        j = j + 1;
    }
    if j < record.len() && record[j] == 34u8 {
        j = j + 1;
    }
    let start = j;
    assert(start as int == value_start(s, p as int));
    while j < record.len() && is_value_byte_exec(record[j])
        invariant
            start <= j <= record@.len(),
            value_end(s, start as int) == value_end(s, j as int),
            s == record@,
        decreases record.len() - j,
    {
        j = j + 1;
    }
    if j == start {
        return None;
    }
    let mut out: Vec<u8> = Vec::new();
    let mut k: usize = start;
    while k < j
        invariant
            start <= k <= j <= record@.len(),
            out@ == s.subrange(start as int, k as int),
            s == record@,
        decreases j - k,
    {
        out.push(record[k]);
        k = k + 1;
        assert(out@ =~= s.subrange(start as int, k as int));
    }
    Some(out)
}

/// A compilation unit read from its bookkeeping directory: its name, its
/// modification time, its size, and the record's contents when the record
/// could be read. A missing or unreadable record leaves the toolchain
/// unresolved.
pub fn parse_unit(
    unit_id: Vec<u8>,
    last_modified: u64,
    record_size: u64,
    record: Option<Vec<u8>>,
    profile: String,
) -> (r: CompilationUnit)
    ensures
        r.unit_id@ == unit_id@,
        r.last_modified == last_modified,
        r.record_size == record_size,
        r.profile == profile,
        match record {
            Some(text) => match r.toolchain {
                Some(t) => record_toolchain(text@) == Some(t@),
                None => record_toolchain(text@) is None,
            },
            None => r.toolchain is None,
        },
{
    let toolchain = match &record {
        Some(text) => parse_toolchain(text),
        None => None,
    };
    CompilationUnit { unit_id, last_modified, record_size, toolchain, profile }
}

/// Units are in identifier order.
pub open spec fn sorted_by_id(u: Seq<CompilationUnit>) -> bool {
    forall|i: int, j: int| 0 <= i < j < u.len() ==> !lex_lt(#[trigger] u[j].unit_id@, #[trigger] u[i].unit_id@)
}

/// Inserting a unit where it belongs keeps units in identifier order.
proof fn lemma_insert_sorted(before: Seq<CompilationUnit>, p: int, x: CompilationUnit)
    requires
        sorted_by_id(before),
        0 <= p <= before.len(),
        forall|q: int| 0 <= q < p ==> !lex_lt(x.unit_id@, #[trigger] before[q].unit_id@),
        forall|q: int| p <= q < before.len() ==> !lex_lt(#[trigger] before[q].unit_id@, x.unit_id@),
    ensures
        sorted_by_id(before.insert(p, x)),
{
    let out = before.insert(p, x);
    before.insert_ensures(p, x);
    assert forall|i: int, j: int| 0 <= i < j < out.len() implies !lex_lt(
        #[trigger] out[j].unit_id@,
        #[trigger] out[i].unit_id@,
    ) by {
        if j < p {
            assert(out[i] == before[i] && out[j] == before[j]);
            assert(!lex_lt(before[j].unit_id@, before[i].unit_id@));
        } else if j == p {
            assert(out[i] == before[i] && out[j] == x);
            assert(!lex_lt(x.unit_id@, before[i].unit_id@));
        } else if i == p {
            assert(out[j] == before[j - 1] && out[i] == x);
            assert(!lex_lt(before[j - 1].unit_id@, x.unit_id@));
        } else if i < p {
            assert(out[i] == before[i] && out[j] == before[j - 1]);
            assert(!lex_lt(before[j - 1].unit_id@, before[i].unit_id@));
        } else {
            assert(out[i] == before[i - 1] && out[j] == before[j - 1]);
            assert(!lex_lt(before[j - 1].unit_id@, before[i - 1].unit_id@));
        }
    }
}

/// The units ordered by identifier, for deterministic reporting.
pub fn sort_units(units: Vec<CompilationUnit>) -> (r: Vec<CompilationUnit>)
    ensures
        r@.to_multiset() == units@.to_multiset(),
        r@.len() == units@.len(),
        sorted_by_id(r@),
{
    broadcast use vstd::seq_lib::group_to_multiset_ensures;

    let ghost all = units@;
    let n: usize = units.len();
    let mut rest = units;
    let mut out: Vec<CompilationUnit> = Vec::new();
    let mut k: usize = 0;
    assert(all.subrange(0, 0) =~= Seq::<CompilationUnit>::empty());
    while rest.len() > 0
        invariant
            n == all.len(),
            k + rest@.len() == all.len(),
            rest@ == all.subrange(k as int, all.len() as int),
            out@.to_multiset() == all.subrange(0, k as int).to_multiset(),
            sorted_by_id(out@),
        decreases rest.len(),
    {
        let x = rest.remove(0);
        let mut p: usize = 0;
        while p < out.len() && !crate::policy::id_less(&x.unit_id, &out[p].unit_id)
            invariant
                p <= out@.len(),
                sorted_by_id(out@),
                forall|q: int| 0 <= q < p ==> !lex_lt(x.unit_id@, #[trigger] out@[q].unit_id@),
            decreases out.len() - p,
        {
            p = p + 1;
        }
        let ghost before = out@;
        proof {
            lemma_lex_lt_irreflexive(x.unit_id@);
            assert(p < before.len() ==> lex_lt(x.unit_id@, before[p as int].unit_id@));
            assert forall|q: int| p <= q < before.len() implies !lex_lt(#[trigger] before[q].unit_id@, x.unit_id@) by {
                if lex_lt(before[q].unit_id@, x.unit_id@) {
                    if q == p {
                        lemma_lex_lt_transitive(x.unit_id@, before[p as int].unit_id@, x.unit_id@);
                    }
                    if q > p {
                        lemma_lex_lt_transitive(before[q].unit_id@, x.unit_id@, before[p as int].unit_id@);
                    }
                }
            }
        }
        out.insert(p, x);
        proof {
            assert(all.subrange(0, k + 1) =~= all.subrange(0, k as int).push(x));
            assert(out@ =~= before.insert(p as int, x));
            vstd::seq_lib::to_multiset_insert(before, p as int, x);
            vstd::seq_lib::to_multiset_build(all.subrange(0, k as int), x);
            assert(out@.to_multiset() == all.subrange(0, k + 1).to_multiset());
            lemma_insert_sorted(before, p as int, x);
        }
        k = k + 1;
        assert(rest@ =~= all.subrange(k as int, all.len() as int));
    }
    assert(all.subrange(0, k as int) =~= all);
    assert(out@.to_multiset().len() == out@.len());
    assert(all.to_multiset().len() == all.len());
    out
}

} // verus!
