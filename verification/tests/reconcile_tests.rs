use zsnapmgr::backups::Backups;
use zsnapmgr::reconcile::{gather_volumes, label_exists, max_label, scan_file, FileScan};

fn strs(xs: &[&str]) -> Vec<String> {
    xs.iter().map(|s| s.to_string()).collect()
}

#[test]
fn gather_picks_the_latest_snapshot_as_target() {
    let volumes = strs(&["tank/data", "tank/sys"]);
    let snapshots = strs(&[
        "tank/data@2024-01-01",
        "tank/data@2024-02-01",
        "tank/sys@2024-02-02",
    ]);
    let files = strs(&["tank_data@2024-01-01.zfs.zst.gpg"]);
    let (work, _notes) = gather_volumes(&volumes, &snapshots, &files);
    assert_eq!(work.len(), 1);
    assert_eq!(work[0].volume, "tank/data");
    assert_eq!(work[0].filename_base, "tank_data");
    assert_eq!(work[0].start_snapshot.as_deref(), Some("2024-01-01"));
    assert_eq!(work[0].end_snapshot.as_deref(), Some("2024-02-01"));
}

#[test]
fn vanished_baseline_falls_back_to_full_backup() {
    let volumes = strs(&["tank/data"]);
    let snapshots = strs(&["tank/data@2024-02-01"]);
    let files = strs(&["tank_data@2023-12-31.zfs.zst.gpg"]);
    let (work, _notes) = gather_volumes(&volumes, &snapshots, &files);
    assert_eq!(work.len(), 1);
    // The recorded baseline no longer exists: never left dangling.
    assert_eq!(work[0].start_snapshot, None);
    assert_eq!(work[0].end_snapshot.as_deref(), Some("2024-02-01"));
}

#[test]
fn up_to_date_volume_leaves_the_worklist() {
    let volumes = strs(&["tank/data"]);
    let snapshots = strs(&["tank/data@2024-02-01"]);
    let files = strs(&["tank_data@2024-02-01.zfs.zst.gpg"]);
    let (work, _notes) = gather_volumes(&volumes, &snapshots, &files);
    assert!(work.is_empty());
}

#[test]
fn one_candidate_per_volume_with_the_greater_baseline() {
    let volumes = strs(&["tank/data"]);
    let snapshots = strs(&["tank/data@2024-01-15", "tank/data@2024-03-01"]);
    let files = strs(&[
        "tank_data@2024-01-01.zfs.zst.gpg",
        "tank_data@2024-01-15.zfs.zst.gpg",
    ]);
    let (work, _notes) = gather_volumes(&volumes, &snapshots, &files);
    assert_eq!(work.len(), 1);
    assert_eq!(work[0].start_snapshot.as_deref(), Some("2024-01-15"));
    assert_eq!(work[0].end_snapshot.as_deref(), Some("2024-03-01"));
}

#[test]
fn worklist_is_ordered_by_volume() {
    let volumes = strs(&["b/vol", "a/vol"]);
    let snapshots = strs(&["a/vol@2024-02-01", "b/vol@2024-02-01"]);
    let files = strs(&[
        "b_vol@2024-01-01.zfs.zst.gpg",
        "a_vol@2024-01-01.zfs.zst.gpg",
    ]);
    let (work, _notes) = gather_volumes(&volumes, &snapshots, &files);
    assert_eq!(work.len(), 2);
    assert_eq!(work[0].volume, "a/vol");
    assert_eq!(work[1].volume, "b/vol");
}

#[test]
fn scan_file_cases() {
    let volumes = strs(&["tank/data", "pool/deep/data", "tank/sys"]);
    match scan_file("tank_data@2024-01-01.zfs.zst.gpg", &volumes) {
        FileScan::Candidate { filename_base, volume, label } => {
            assert_eq!(filename_base, "tank_data");
            assert_eq!(volume, "tank/data");
            assert_eq!(label, "2024-01-01");
        }
        _ => panic!("expected an exact volume match"),
    }
    // A volume moved under another parent is found by its tail.
    match scan_file("deep_data@2024-01-01.zfs.zst.gpg", &volumes) {
        FileScan::Candidate { filename_base, volume, label } => {
            assert_eq!(filename_base, "deep/data");
            assert_eq!(volume, "pool/deep/data");
            assert_eq!(label, "2024-01-01");
        }
        _ => panic!("expected a unique tail match"),
    }
    assert!(matches!(
        scan_file("nosuch@2024-01-01.zfs.zst.gpg", &volumes),
        FileScan::NoMatch
    ));
    assert!(matches!(
        scan_file("data@2024-01-01.zfs.zst.gpg", &volumes),
        FileScan::Ambiguous
    ));
    assert!(matches!(
        scan_file("tank_data@2024-01-01.zfs.zst.gpg_partial", &volumes),
        FileScan::NotArtifact
    ));
    assert!(matches!(scan_file("README.txt", &volumes), FileScan::NotArtifact));
    assert!(matches!(
        scan_file("tankdata2024.zfs.zst.gpg", &volumes),
        FileScan::MalformedName
    ));
}

#[test]
fn candidate_table_keeps_the_greatest_baseline() {
    let mut b = Backups::new();
    b.insert("base1".to_string(), "tank/a".to_string(), Some("2024-01-01".to_string()));
    b.insert("base2".to_string(), "tank/a".to_string(), Some("2024-02-01".to_string()));
    b.insert("base0".to_string(), "tank/a".to_string(), Some("2023-01-01".to_string()));
    assert_eq!(b.len(), 1);
    let e = b.get(0);
    assert_eq!(e.filename_base, "base2");
    assert_eq!(e.start_snapshot.as_deref(), Some("2024-02-01"));
    assert_eq!(e.end_snapshot, None);
}

#[test]
fn snapshot_lookups() {
    let snapshots = strs(&[
        "tank/data@2024-01-01",
        "tank/data@nightly",
        "tank/data@2024-03-05",
        "other@2024-12-31",
    ]);
    assert_eq!(max_label(&snapshots, "tank/data").as_deref(), Some("2024-03-05"));
    assert_eq!(max_label(&snapshots, "missing"), None);
    assert!(label_exists(&snapshots, "tank/data", "2024-01-01"));
    assert!(!label_exists(&snapshots, "tank/data", "2024-02-01"));
    // A non-date label is never an incremental baseline.
    assert!(!label_exists(&snapshots, "tank/data", "nightly"));
}

#[test]
fn inventory_lists_are_ordered_and_deduplicated() {
    let raw = strs(&["tank/b", "tank/a", "tank/b", "pool", "tank/a"]);
    let sorted = zsnapmgr::inventory::sort_unique(&raw);
    assert_eq!(sorted, strs(&["pool", "tank/a", "tank/b"]));
    let empty: Vec<String> = Vec::new();
    assert!(zsnapmgr::inventory::sort_unique(&empty).is_empty());
}

#[test]
fn into_values_keeps_only_resolved_candidates() {
    let mut b = Backups::new();
    b.insert("a_x".to_string(), "a/x".to_string(), Some("2024-01-01".to_string()));
    b.insert("b_y".to_string(), "b/y".to_string(), Some("2024-01-02".to_string()));
    b.set_resolution(1, None, Some("2024-02-01".to_string()));
    let work = b.into_values();
    assert_eq!(work.len(), 1);
    assert_eq!(work[0].volume, "b/y");
    assert_eq!(work[0].start_snapshot, None);
    assert_eq!(work[0].end_snapshot.as_deref(), Some("2024-02-01"));
}
