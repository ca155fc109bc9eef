use zsnapmgr::table::{measure, write_measured, Table};

#[test]
fn headings_mark_right_aligned_columns() {
    let headers = vec!["_".to_string(), "volume".to_string(), "_size".to_string()];
    let t = Table::new(&headers);
    assert_eq!(t.headers, vec!["", "volume", "size"]);
    assert_eq!(t.pad_left, vec![true, false, true]);
    assert!(t.items.is_empty());
}

#[test]
fn rows_are_kept_in_order() {
    let headers = vec!["a".to_string(), "b".to_string()];
    let mut t = Table::new(&headers);
    t.push(vec!["1".to_string(), "x".to_string()]);
    t.push(vec!["2".to_string(), "y".to_string()]);
    assert_eq!(t.items.len(), 2);
    assert_eq!(t.items[1], vec!["2", "y"]);
}

#[test]
fn measure_tracks_the_widest_cell() {
    let mut widths: Vec<usize> = vec![0, 3];
    measure(&mut widths, &vec!["12345".to_string(), "ab".to_string()]);
    assert_eq!(widths, vec![5, 3]);
    measure(&mut widths, &vec!["1".to_string(), "abcdef".to_string()]);
    assert_eq!(widths, vec![5, 6]);
}

#[test]
fn write_measured_pads_and_separates() {
    let mut out = String::new();
    write_measured(
        &mut out,
        &vec!["123".to_string(), "ab".to_string()],
        &vec![5, 4],
        &vec![true, false],
    );
    assert_eq!(out, "  123 | ab  ");
    let mut out2 = String::new();
    write_measured(
        &mut out2,
        &vec!["wide-cell".to_string()],
        &vec![3],
        &vec![false],
    );
    assert_eq!(out2, "wide-cell");
}
