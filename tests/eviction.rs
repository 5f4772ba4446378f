use cargo_sweep::discovery::{is_cargo_root, is_covered, is_hidden, walk_action, WalkAction};
use cargo_sweep::input::{
    days_to_seconds, megabytes_to_bytes, parse_budget, parse_days, parse_decimal, InputError,
};
use cargo_sweep::executor::{decision_list, group_freed, next_step, tally, DeletionStep, PolicyKind};
use cargo_sweep::grouper::{checked_listing_size, contains_key, group_unit, group_units, OutputFile};
use cargo_sweep::model::{ArtifactGroup, CompilationUnit};
use cargo_sweep::policy::{
    checked_total_bytes, cutoff_for_age, id_less, same_bytes, select_by_age, select_by_size, select_by_toolchain,
    total_bytes,
};
use cargo_sweep::record::{parse_toolchain, parse_unit, sort_units};

const MB: u64 = 1024 * 1024;
const DAY: u64 = 86400;
const NOW: u64 = 100 * DAY;

fn unit(id: &str, last_modified: u64, toolchain: Option<&str>) -> CompilationUnit {
    CompilationUnit {
        unit_id: id.as_bytes().to_vec(),
        last_modified,
        record_size: 0,
        toolchain: toolchain.map(|t| t.as_bytes().to_vec()),
        profile: "debug".to_string(),
    }
}

fn group(id: &str, last_modified: u64, toolchain: Option<&str>, size: u64) -> ArtifactGroup {
    ArtifactGroup { unit: unit(id, last_modified, toolchain), files: vec![], total_size: size }
}

/// Three groups: 10MB built 3 days ago, 20MB 1 day ago, 5MB 5 days ago.
fn three_groups() -> Vec<ArtifactGroup> {
    vec![
        group("aaaa", NOW - 3 * DAY, Some("1.70.0"), 10 * MB),
        group("bbbb", NOW - DAY, Some("1.70.0"), 20 * MB),
        group("cccc", NOW - 5 * DAY, Some("1.70.0"), 5 * MB),
    ]
}

fn reclaimed(groups: &Vec<ArtifactGroup>, decisions: &Vec<bool>) -> u64 {
    let freed = vec![false; groups.len()];
    tally(groups, decisions, &freed, false).reclaimed
}

#[test]
fn size_budget_three_groups() {
    let groups = three_groups();
    let decisions = select_by_size(&groups, 15 * MB);
    assert_eq!(decisions, vec![true, true, true]);
    let got = reclaimed(&groups, &decisions);
    assert_eq!(got, 35 * MB);
    assert!(total_bytes(&groups) - got <= 15 * MB);
}

#[test]
fn size_budget_stops_once_it_fits() {
    let groups = three_groups();
    // 35MB total, budget 25MB: removing the 5MB group leaves 30MB, then the
    // 10MB group leaves 20MB, which fits.
    let decisions = select_by_size(&groups, 25 * MB);
    assert_eq!(decisions, vec![true, false, true]);
    assert_eq!(reclaimed(&groups, &decisions), 15 * MB);
}

#[test]
fn size_budget_under_budget_removes_nothing() {
    let groups = three_groups();
    assert_eq!(select_by_size(&groups, 35 * MB), vec![false, false, false]);
    assert_eq!(select_by_size(&groups, 100 * MB), vec![false, false, false]);
    assert_eq!(select_by_size(&vec![], 0), Vec::<bool>::new());
}

#[test]
fn size_budget_zero_removes_everything() {
    let groups = three_groups();
    assert_eq!(select_by_size(&groups, 0), vec![true, true, true]);
}

#[test]
fn size_budget_ties_broken_by_identifier() {
    let groups = vec![
        group("zz", 50, None, 10),
        group("aa", 50, None, 10),
        group("mm", 50, None, 10),
    ];
    // 30 bytes, budget 15: "aa" then "mm" go, "zz" stays.
    assert_eq!(select_by_size(&groups, 15), vec![false, true, true]);
    // budget 25: only "aa" goes.
    assert_eq!(select_by_size(&groups, 25), vec![false, true, false]);
}

#[test]
fn size_budget_remaining_fits_for_every_budget() {
    let groups = three_groups();
    let total = total_bytes(&groups);
    for budget_mb in 0..40u64 {
        let decisions = select_by_size(&groups, budget_mb * MB);
        assert!(total - reclaimed(&groups, &decisions) <= budget_mb * MB);
    }
}

#[test]
fn age_cutoff_two_days() {
    let groups = three_groups();
    let cutoff = cutoff_for_age(NOW, 2 * DAY);
    let decisions = select_by_age(&groups, cutoff);
    assert_eq!(decisions, vec![true, false, true]);
    assert_eq!(reclaimed(&groups, &decisions), 15 * MB);
}

#[test]
fn age_boundary_is_kept() {
    let groups = three_groups();
    let cutoff = cutoff_for_age(NOW, 3 * DAY);
    assert_eq!(select_by_age(&groups, cutoff), vec![false, false, true]);
}

#[test]
fn age_cutoff_longer_than_history_removes_nothing() {
    assert_eq!(cutoff_for_age(10, 20), 0);
    assert_eq!(cutoff_for_age(30, 20), 10);
    let groups = vec![group("a", 0, None, 1)];
    assert_eq!(select_by_age(&groups, cutoff_for_age(10, 20)), vec![false]);
}

#[test]
fn age_later_cutoff_removes_a_superset() {
    let groups = three_groups();
    let mut previous = select_by_age(&groups, 0);
    for day in 0..8u64 {
        let current = select_by_age(&groups, NOW - 7 * DAY + day * DAY);
        for i in 0..groups.len() {
            assert!(!previous[i] || current[i]);
        }
        previous = current;
    }
}

#[test]
fn toolchain_keep_set_scenario() {
    let groups = vec![
        group("a", 1, Some("1.70.0"), 1),
        group("b", 1, Some("1.65.0"), 2),
        group("c", 1, None, 4),
    ];
    let keep = vec![b"1.70.0".to_vec()];
    let decisions = select_by_toolchain(&groups, &keep);
    assert_eq!(decisions, vec![false, true, false]);
    assert_eq!(reclaimed(&groups, &decisions), 2);
}

#[test]
fn toolchain_unknown_kept_for_any_keep_set() {
    let groups = vec![group("a", 1, None, 1), group("b", 1, Some("1.65.0"), 2)];
    let sets = vec![vec![], vec![b"1.70.0".to_vec()], vec![b"unknown".to_vec(), b"1.65.0".to_vec()]];
    for keep in &sets {
        assert!(!select_by_toolchain(&groups, keep)[0]);
    }
    assert!(select_by_toolchain(&groups, &sets[0])[1]);
    assert!(!select_by_toolchain(&groups, &sets[2])[1]);
}

#[test]
fn parse_bare_toolchain() {
    let rec = br#"{"rustc":12345678901234,"features":"[]","target":1}"#.to_vec();
    assert_eq!(parse_toolchain(&rec), Some(b"12345678901234".to_vec()));
}

#[test]
fn parse_quoted_toolchain_with_spaces() {
    let rec = br#"{ "target": 3, "rustc":  "1.70.0", "path": 7 }"#.to_vec();
    assert_eq!(parse_toolchain(&rec), Some(b"1.70.0".to_vec()));
}

#[test]
fn parse_first_field_wins() {
    let rec = br#"{"rustc":11,"deps":{"rustc":22}}"#.to_vec();
    assert_eq!(parse_toolchain(&rec), Some(b"11".to_vec()));
}

#[test]
fn parse_missing_or_empty_toolchain() {
    assert_eq!(parse_toolchain(&br#"{"target":1}"#.to_vec()), None);
    assert_eq!(parse_toolchain(&br#"{"rustc":""}"#.to_vec()), None);
    assert_eq!(parse_toolchain(&br#"{"rustc":"#.to_vec()), None);
    assert_eq!(parse_toolchain(&b"not json at all".to_vec()), None);
    assert_eq!(parse_toolchain(&vec![]), None);
}

#[test]
fn parse_unit_without_record_is_unknown() {
    let u = parse_unit(b"foo-0123".to_vec(), 77, 12, None, "release".to_string());
    assert_eq!(u.unit_id, b"foo-0123".to_vec());
    assert_eq!(u.last_modified, 77);
    assert_eq!(u.record_size, 12);
    assert_eq!(u.toolchain, None);
    assert_eq!(u.profile, "release");
    let v = parse_unit(b"foo-0123".to_vec(), 77, 12, Some(br#"{"rustc":9}"#.to_vec()), "debug".to_string());
    assert_eq!(v.toolchain, Some(b"9".to_vec()));
    let w = parse_unit(b"foo-0123".to_vec(), 77, 12, Some(b"garbage".to_vec()), "debug".to_string());
    assert_eq!(w.toolchain, None);
}

fn out(name: &str, size: u64) -> OutputFile {
    OutputFile { name: name.as_bytes().to_vec(), size }
}

#[test]
fn grouping_collects_matching_files() {
    let outputs = vec![
        out("libfoo-1a2b.rlib", 100),
        out("foo-1a2b.d", 3),
        out("libbar-9f9f.rlib", 50),
        out("foo-1a2b", 7),
    ];
    let groups = group_units(
        vec![unit("foo-1a2b", 5, Some("x")), unit("bar-9f9f", 6, None), unit("baz-0000", 7, None)],
        &outputs,
    );
    assert_eq!(groups.len(), 3);
    assert_eq!(groups[0].unit.unit_id, b"foo-1a2b".to_vec());
    assert_eq!(
        groups[0].files,
        vec![b"libfoo-1a2b.rlib".to_vec(), b"foo-1a2b.d".to_vec(), b"foo-1a2b".to_vec()]
    );
    assert_eq!(groups[0].total_size, 110);
    assert_eq!(groups[1].files, vec![b"libbar-9f9f.rlib".to_vec()]);
    assert_eq!(groups[1].total_size, 50);
    assert!(groups[2].files.is_empty());
    assert_eq!(groups[2].total_size, 0);
    assert_eq!(groups[2].unit.last_modified, 7);
}

#[test]
fn grouping_single_unit() {
    let g = group_unit(unit("k", 1, None), &vec![out("a", 1), out("k", 2), out("xkx", 4)]);
    assert_eq!(g.files, vec![b"k".to_vec(), b"xkx".to_vec()]);
    assert_eq!(g.total_size, 6);
}

#[test]
fn key_search() {
    assert!(contains_key(&b"libfoo-1a2b.rlib".to_vec(), &b"1a2b".to_vec()));
    assert!(contains_key(&b"abc".to_vec(), &b"abc".to_vec()));
    assert!(contains_key(&b"abc".to_vec(), &b"".to_vec()));
    assert!(!contains_key(&b"ab".to_vec(), &b"abc".to_vec()));
    assert!(!contains_key(&b"aabab".to_vec(), &b"abb".to_vec()));
}

#[test]
fn identifier_order() {
    assert!(id_less(&b"abc".to_vec(), &b"abd".to_vec()));
    assert!(id_less(&b"ab".to_vec(), &b"abc".to_vec()));
    assert!(!id_less(&b"abc".to_vec(), &b"abc".to_vec()));
    assert!(!id_less(&b"b".to_vec(), &b"abc".to_vec()));
    assert!(same_bytes(&b"x".to_vec(), &b"x".to_vec()));
    assert!(!same_bytes(&b"x".to_vec(), &b"xy".to_vec()));
}

#[test]
fn deletion_protocol_removes_record_last() {
    assert_eq!(next_step(true, true, 2, &vec![]), DeletionStep::RemoveFile(0));
    assert_eq!(next_step(true, true, 2, &vec![true]), DeletionStep::RemoveFile(1));
    assert_eq!(next_step(true, true, 2, &vec![true, true]), DeletionStep::RemoveRecord);
    assert_eq!(next_step(true, true, 0, &vec![]), DeletionStep::RemoveRecord);
    assert!(group_freed(2, &vec![true, true], true));
}

#[test]
fn deletion_failure_keeps_record() {
    assert_eq!(next_step(true, true, 3, &vec![true, false]), DeletionStep::Finish);
    assert!(!group_freed(3, &vec![true, false], false));
    assert!(!group_freed(2, &vec![true, true], false));
    assert!(!group_freed(3, &vec![true, true], true));
}

#[test]
fn dry_run_asks_for_no_removal() {
    assert_eq!(next_step(false, true, 2, &vec![]), DeletionStep::Finish);
    assert_eq!(next_step(false, true, 0, &vec![]), DeletionStep::Finish);
    assert_eq!(next_step(true, false, 2, &vec![]), DeletionStep::Finish);
    assert_eq!(next_step(true, false, 0, &vec![]), DeletionStep::Finish);
}

#[test]
fn dry_run_totals_match_apply() {
    let groups = three_groups();
    let decisions = vec![true, false, true];
    let all_freed = vec![true, true, true];
    let dry = tally(&groups, &decisions, &all_freed, false);
    let applied = tally(&groups, &decisions, &all_freed, true);
    assert_eq!(dry.reclaimed, applied.reclaimed);
    assert_eq!(dry.reclaimed, 15 * MB);
    assert_eq!((dry.removed, dry.kept), (2, 1));
    assert_eq!((applied.removed, applied.kept), (2, 1));
    assert!(dry.failed.is_empty() && applied.failed.is_empty());
}

#[test]
fn failed_group_is_not_credited() {
    let groups = three_groups();
    let decisions = vec![true, true, true];
    let freed = vec![true, false, true];
    let report = tally(&groups, &decisions, &freed, true);
    assert_eq!(report.reclaimed, 15 * MB);
    assert_eq!(report.removed, 2);
    assert_eq!(report.kept, 1);
    assert_eq!(report.failed, vec![1]);
    let dry = tally(&groups, &decisions, &freed, false);
    assert_eq!(dry.reclaimed, 35 * MB);
    assert!(dry.failed.is_empty());
}

#[test]
fn cargo_root_needs_existing_target() {
    assert_eq!(is_cargo_root(Some("/p/target".to_string()), true), Some("/p/target".to_string()));
    assert_eq!(is_cargo_root(Some("/p/target".to_string()), false), None);
    assert_eq!(is_cargo_root(None, false), None);
}

#[test]
fn hidden_names() {
    assert!(is_hidden(".git"));
    assert!(!is_hidden("src"));
    assert!(!is_hidden(""));
}

fn path(parts: &[&str]) -> Vec<Vec<u8>> {
    parts.iter().map(|p| p.as_bytes().to_vec()).collect()
}

#[test]
fn covered_paths() {
    let targets = vec![path(&["home", "p", "target"]), path(&["x"])];
    assert!(is_covered(&path(&["home", "p", "target", "debug"]), &targets));
    assert!(is_covered(&path(&["home", "p", "target"]), &targets));
    assert!(is_covered(&path(&["x", "y"]), &targets));
    assert!(!is_covered(&path(&["home", "p"]), &targets));
    assert!(!is_covered(&path(&["home", "q", "target"]), &targets));
    assert!(!is_covered(&path(&["a"]), &vec![]));
}

#[test]
fn walk_decisions() {
    assert_eq!(walk_action(false, true, true, false, false), WalkAction::SkipDir);
    assert_eq!(walk_action(true, true, true, false, false), WalkAction::Pass);
    assert_eq!(walk_action(true, true, false, true, false), WalkAction::SkipDir);
    assert_eq!(walk_action(false, false, true, false, true), WalkAction::Inspect);
    assert_eq!(walk_action(false, false, false, false, false), WalkAction::Pass);
}

#[test]
fn unit_conversions() {
    assert_eq!(megabytes_to_bytes(15), Some(15 * MB));
    assert_eq!(megabytes_to_bytes(u64::MAX), None);
    assert_eq!(days_to_seconds(2), Some(2 * DAY));
    assert_eq!(days_to_seconds(u64::MAX / 1000), None);
}

#[test]
fn units_sorted_by_identifier() {
    let units = vec![
        unit("foo-2", 1, None),
        unit("bar-9", 2, None),
        unit("foo-10", 3, None),
        unit("bar-9", 4, None),
        unit("a", 5, None),
    ];
    let sorted = sort_units(units);
    let ids: Vec<Vec<u8>> = sorted.iter().map(|u| u.unit_id.clone()).collect();
    assert_eq!(
        ids,
        vec![b"a".to_vec(), b"bar-9".to_vec(), b"bar-9".to_vec(), b"foo-10".to_vec(), b"foo-2".to_vec()]
    );
    let times: Vec<u64> = sorted.iter().map(|u| u.last_modified).collect();
    assert_eq!(times, vec![5, 2, 4, 3, 1]);
    assert!(sort_units(vec![]).is_empty());
}

#[test]
fn decisions_carry_policy_and_size() {
    let groups = three_groups();
    let list = decision_list(&groups, &vec![true, false, true], PolicyKind::Age);
    assert_eq!(list.len(), 3);
    assert!(list[0].remove && !list[1].remove && list[2].remove);
    assert!(list.iter().all(|d| d.policy == PolicyKind::Age));
    assert_eq!(list[1].total_size, 20 * MB);
}

#[test]
fn decimal_numbers() {
    assert_eq!(parse_decimal(&b"0".to_vec()), Some(0));
    assert_eq!(parse_decimal(&b"15".to_vec()), Some(15));
    assert_eq!(parse_decimal(&b"007".to_vec()), Some(7));
    assert_eq!(parse_decimal(&b"18446744073709551615".to_vec()), Some(u64::MAX));
    assert_eq!(parse_decimal(&b"18446744073709551616".to_vec()), None);
    assert_eq!(parse_decimal(&b"".to_vec()), None);
    assert_eq!(parse_decimal(&b"-1".to_vec()), None);
    assert_eq!(parse_decimal(&b"1.5".to_vec()), None);
    assert_eq!(parse_decimal(&b" 1".to_vec()), None);
    assert_eq!(parse_decimal(&b"+15".to_vec()), Some(15));
    assert_eq!(parse_decimal(&b"+".to_vec()), None);
    assert_eq!(parse_decimal(&b"++1".to_vec()), None);
    assert_eq!(parse_decimal(&b"1+".to_vec()), None);
}

#[test]
fn budget_and_period_inputs() {
    assert_eq!(parse_budget(&b"15".to_vec()), Ok(15 * MB));
    assert_eq!(parse_budget(&b"+15".to_vec()), Ok(15 * MB));
    assert_eq!(parse_days(&b"+2".to_vec()), Ok(2 * DAY));
    assert_eq!(parse_budget(&b"15MB".to_vec()), Err(InputError::InvalidBudget));
    assert_eq!(parse_budget(&b"17592186044416".to_vec()), Err(InputError::InvalidBudget));
    assert_eq!(parse_budget(&b"17592186044415".to_vec()), Ok(17592186044415 * MB));
    assert_eq!(parse_days(&b"2".to_vec()), Ok(2 * DAY));
    assert_eq!(parse_days(&b"two".to_vec()), Err(InputError::InvalidCutoff));
    assert_eq!(parse_days(&b"".to_vec()), Err(InputError::InvalidCutoff));
    assert_eq!(parse_days(&b"213503982334602".to_vec()), Err(InputError::InvalidCutoff));
}

#[test]
fn checked_totals() {
    assert_eq!(checked_total_bytes(&three_groups()), Some(35 * MB));
    assert_eq!(checked_total_bytes(&vec![]), Some(0));
    let big = vec![group("a", 1, None, u64::MAX), group("b", 1, None, 1)];
    assert_eq!(checked_total_bytes(&big), None);
    let edge = vec![group("a", 1, None, u64::MAX - 1), group("b", 1, None, 1)];
    assert_eq!(checked_total_bytes(&edge), Some(u64::MAX));
}

#[test]
fn checked_listing() {
    assert_eq!(checked_listing_size(&vec![out("a", 3), out("b", 4)]), Some(7));
    assert_eq!(checked_listing_size(&vec![out("a", u64::MAX), out("b", 1)]), None);
}

#[test]
fn parse_truncated_record_is_unknown() {
    assert_eq!(parse_toolchain(&br#"{"rustc":1"#.to_vec()), None);
    assert_eq!(parse_toolchain(&br#"{"rustc":1,"deps":[1,2"#.to_vec()), None);
    assert_eq!(parse_toolchain(&br#"{"rustc":1,"path":"abc}"#.to_vec()), None);
    assert_eq!(parse_toolchain(&br#"{"rustc":1} trailing"#.to_vec()), None);
    assert_eq!(parse_toolchain(&br#"x{"rustc":1}"#.to_vec()), None);
    assert_eq!(parse_toolchain(&br#" {"rustc":1}
"#.to_vec()), Some(b"1".to_vec()));
    let u = parse_unit(b"u".to_vec(), 1, 0, Some(br#"{"rustc":1"#.to_vec()), "debug".to_string());
    assert_eq!(u.toolchain, None);
    let groups = vec![ArtifactGroup { unit: u, files: vec![], total_size: 9 }];
    assert_eq!(select_by_toolchain(&groups, &vec![]), vec![false]);
}

#[test]
fn parse_only_top_level_field() {
    assert_eq!(parse_toolchain(&br#"{"deps":{"rustc":22},"rustc":11}"#.to_vec()), Some(b"11".to_vec()));
    assert_eq!(parse_toolchain(&br#"{"deps":[{"rustc":22}]}"#.to_vec()), None);
    assert_eq!(
        parse_toolchain(&br#"{"a":"x\"rustc\":5","rustc":6}"#.to_vec()),
        Some(b"6".to_vec())
    );
    assert_eq!(parse_toolchain(&br#"{"a":"\"rustc\":5"}"#.to_vec()), None);
}

#[test]
fn grouping_counts_the_record() {
    let mut u = unit("k-1", 1, None);
    u.record_size = 40;
    let g = group_unit(u, &vec![out("deps/libk-1.rlib", 2), out("deps/other", 4)]);
    assert_eq!(g.files, vec![b"deps/libk-1.rlib".to_vec()]);
    assert_eq!(g.total_size, 42);
    let mut lone = unit("z-9", 1, None);
    lone.record_size = 7;
    assert_eq!(group_unit(lone, &vec![out("deps/other", 4)]).total_size, 7);
}
