use dfs_audit::aggregate::Aggregator;
use dfs_audit::classify::{classify, is_stale, AuditRecord};
use dfs_audit::config::{check_root, AuditError, WalkConfiguration};
use dfs_audit::engine::{run_audit, run_audit_at, AccessOutcome, DiscoveredEntry};
use dfs_audit::is_eligible;

const DAY: i64 = 86400;
const NOW: i64 = 1_700_000_000;

fn entry(path: &str, is_directory: bool, access: i64) -> DiscoveredEntry {
    DiscoveredEntry {
        path: path.to_string(),
        is_directory,
        access: AccessOutcome::KnownSeconds(access),
    }
}

fn paths(records: &[AuditRecord]) -> Vec<String> {
    let mut v: Vec<String> = records.iter().map(|r| r.path.clone()).collect();
    v.sort();
    v
}

#[test]
fn filter_truth_table() {
    assert!(is_eligible(true, true));
    assert!(is_eligible(true, false));
    assert!(!is_eligible(false, true));
    assert!(is_eligible(false, false));
}

#[test]
fn cutoff_boundary_is_retained() {
    let cutoff: u32 = 1095;
    let boundary = NOW - (cutoff as i64) * DAY;
    assert!(!is_stale(boundary, NOW, cutoff));
    assert!(is_stale(boundary - 1, NOW, cutoff));
}

#[test]
fn future_access_does_not_qualify() {
    assert!(!is_stale(NOW + DAY, NOW, 1095));
}

#[test]
fn classifier_renders_both_outcomes() {
    let stale = NOW - 2000 * DAY;
    match classify("/data/old", stale, NOW, 1095) {
        Ok(rec) => {
            assert_eq!(rec.path, "/data/old");
            assert_eq!(rec.accessed.len(), 19);
        }
        Err(_) => panic!("a stale entry must qualify"),
    }
    let fresh = NOW - 10 * DAY;
    match classify("/data/new", fresh, NOW, 1095) {
        Ok(_) => panic!("a fresh entry must be excluded"),
        Err(excluded) => assert_eq!(excluded.accessed.len(), 19),
    }
}

#[test]
fn scenario_stale_file_is_reported() {
    // files `a` (accessed 2000 days ago) and `b` (10 days ago), cutoff 1095
    let entries = vec![
        entry("a", false, NOW - 2000 * DAY),
        entry("b", false, NOW - 10 * DAY),
    ];
    let cfg = WalkConfiguration::new("/fixture".to_string(), 1, 1095, false);
    let out = run_audit_at(&entries, 0, &cfg, NOW);
    assert_eq!(paths(&out.records), vec!["a".to_string()]);
    assert_eq!(out.stats.discovered, 2);
    assert_eq!(out.stats.qualifying, 1);
    assert_eq!(out.stats.retained, 1);
}

#[test]
fn scenario_directories_only() {
    // one stale file and one stale subdirectory under directories-only
    let stale = NOW - 2000 * DAY;
    let entries = vec![
        entry("/root/file.txt", false, stale),
        entry("/root/subdir", true, stale),
    ];
    let cfg = WalkConfiguration::new("/root".to_string(), 8, 1095, true);
    let out = run_audit_at(&entries, 0, &cfg, NOW);
    assert_eq!(paths(&out.records), vec!["/root/subdir".to_string()]);
    assert_eq!(out.stats.filtered_out, 1);
    assert_eq!(out.stats.qualifying, 1);
}

#[test]
fn scenario_missing_root_is_fatal() {
    assert_eq!(check_root(false, false), Err(AuditError::FatalPrecondition));
    assert_eq!(check_root(true, false), Err(AuditError::FatalPrecondition));
    assert_eq!(check_root(false, true), Err(AuditError::FatalPrecondition));
    assert_eq!(check_root(true, true), Ok(()));
    // with nothing walked, the report holds only the header
    let no_records: Vec<AuditRecord> = Vec::new();
    assert_eq!(dfs_audit::emit::emit(&no_records), "path,accessed\n");
}

#[test]
fn scenario_denied_subtree_does_not_halt_the_run() {
    // one subtree could not be read; every other qualifying entry is still
    // reported and the error is counted
    let entries = vec![
        entry("/root/a", false, NOW - 2000 * DAY),
        entry("/root/b", false, NOW - 1500 * DAY),
    ];
    let cfg = WalkConfiguration::new("/root".to_string(), 4, 1095, false);
    let out = run_audit_at(&entries, 1, &cfg, NOW);
    assert_eq!(
        paths(&out.records),
        vec!["/root/a".to_string(), "/root/b".to_string()]
    );
    assert_eq!(out.stats.discovery_errors, 1);
    assert_eq!(out.stats.discovered, 3);
}

#[test]
fn completeness_every_entry_is_accounted_for() {
    let entries = vec![
        entry("q", false, NOW - 2000 * DAY),
        entry("r", false, NOW - 1 * DAY),
        entry("f", false, NOW - 2000 * DAY),
        DiscoveredEntry {
            path: "m".to_string(),
            is_directory: false,
            access: AccessOutcome::MetadataUnavailable,
        },
    ];
    let cfg = WalkConfiguration::new("/root".to_string(), 1, 1095, true);
    let out = run_audit_at(&entries, 0, &cfg, NOW);
    // q, r, f are files under directories-only: filtered out; m as well
    assert_eq!(out.stats.filtered_out, 4);
    assert_eq!(
        out.stats.qualifying
            + out.stats.retained
            + out.stats.filtered_out
            + out.stats.metadata_unavailable,
        4
    );

    let cfg_all = WalkConfiguration::new("/root".to_string(), 1, 1095, false);
    let out_all = run_audit_at(&entries, 0, &cfg_all, NOW);
    assert_eq!(out_all.stats.qualifying, 2);
    assert_eq!(out_all.stats.retained, 1);
    assert_eq!(out_all.stats.metadata_unavailable, 1);
    assert_eq!(out_all.stats.filtered_out, 0);
    assert_eq!(
        out_all.stats.qualifying
            + out_all.stats.retained
            + out_all.stats.filtered_out
            + out_all.stats.metadata_unavailable,
        4
    );
}

#[test]
fn idempotence_same_inputs_same_results() {
    let entries = vec![
        entry("x", false, NOW - 1200 * DAY),
        entry("y", true, NOW - 3 * DAY),
        entry("z", false, NOW - 1100 * DAY),
    ];
    let cfg = WalkConfiguration::new("/root".to_string(), 2, 1095, false);
    let first = run_audit_at(&entries, 0, &cfg, NOW);
    let second = run_audit_at(&entries, 0, &cfg, NOW);
    assert_eq!(paths(&first.records), paths(&second.records));
    assert_eq!(first.stats, second.stats);
    let first_rendered: Vec<(String, String)> = first
        .records
        .iter()
        .map(|r| (r.path.clone(), r.accessed.clone()))
        .collect();
    let second_rendered: Vec<(String, String)> = second
        .records
        .iter()
        .map(|r| (r.path.clone(), r.accessed.clone()))
        .collect();
    assert_eq!(first_rendered, second_rendered);
}

#[test]
fn delivery_order_does_not_change_the_qualifying_set() {
    // the same fixture delivered in three different interleavings, as if by
    // worker pools of different sizes
    let a = entry("/t/a", false, NOW - 4000 * DAY);
    let b = entry("/t/b", true, NOW - 1096 * DAY);
    let c = entry("/t/c", false, NOW - 2 * DAY);
    let d = entry("/t/d", false, NOW - 1500 * DAY);
    let order1 = vec![a.clone(), b.clone(), c.clone(), d.clone()];
    let order2 = vec![d.clone(), c.clone(), b.clone(), a.clone()];
    let order3 = vec![b.clone(), d.clone(), a.clone(), c.clone()];
    let cfg = WalkConfiguration::new("/t".to_string(), 1, 1095, false);
    let r1 = paths(&run_audit_at(&order1, 0, &cfg, NOW).records);
    let r2 = paths(&run_audit_at(&order2, 0, &cfg, NOW).records);
    let r3 = paths(&run_audit_at(&order3, 0, &cfg, NOW).records);
    assert_eq!(r1, r2);
    assert_eq!(r2, r3);
    assert_eq!(
        r1,
        vec!["/t/a".to_string(), "/t/b".to_string(), "/t/d".to_string()]
    );
}

#[test]
fn aggregator_keeps_every_push() {
    let mut agg = Aggregator::new();
    assert_eq!(agg.len(), 0);
    agg.push(AuditRecord {
        path: "p1".to_string(),
        accessed: "1970-01-01 00:00:00".to_string(),
    });
    agg.push(AuditRecord {
        path: "p2".to_string(),
        accessed: "1971-01-01 00:00:00".to_string(),
    });
    assert_eq!(agg.len(), 2);
    let out = agg.drain();
    assert_eq!(out.len(), 2);
    assert_eq!(out[0].path, "p1");
    assert_eq!(out[1].path, "p2");
}

#[test]
fn configuration_defaults() {
    let cfg = WalkConfiguration::with_defaults("/data".to_string());
    assert_eq!(cfg.root, "/data");
    assert_eq!(cfg.workers, 50);
    assert_eq!(cfg.cutoff_days, 1095);
    assert!(!cfg.directories_only);
}

#[test]
fn audit_against_the_wall_clock() {
    // an entry last accessed at the epoch is stale under any realistic clock
    let entries = vec![entry("/ancient", false, 0)];
    let cfg = WalkConfiguration::with_defaults("/".to_string());
    let out = run_audit(&entries, 0, &cfg);
    assert_eq!(out.records.len(), 1);
    assert_eq!(out.records[0].accessed, "1970-01-01 00:00:00");
}
