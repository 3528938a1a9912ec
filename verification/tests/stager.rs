use fast_file_tracker::stager::RowStager;

#[test]
fn a_new_stager_is_empty() {
    let stager = RowStager::with_capacity(8);
    assert_eq!(stager.len(), 0);
    assert!(stager.rows().is_empty());
}

#[test]
fn rows_come_back_in_staging_order() {
    let mut stager = RowStager::with_capacity(0);
    stager.stage(0xE4C1_91D0_91BD_8853, "root/a.txt");
    stager.stage(0xE5C7_BB45_33BC_65DD, "root/b.bin");
    stager.stage(3, "root/it's here");
    assert_eq!(stager.len(), 3);
    assert_eq!(
        stager.rows(),
        vec![
            ("e4c191d091bd8853".to_string(), "root/a.txt".to_string()),
            ("e5c7bb4533bc65dd".to_string(), "root/b.bin".to_string()),
            ("0000000000000003".to_string(), "root/it's here".to_string()),
        ]
    );
}

#[test]
fn a_row_can_be_asked_by_its_index() {
    let mut stager = RowStager::with_capacity(2);
    stager.stage(10, "first");
    stager.stage(11, "second");
    assert_eq!(
        stager.row(1),
        ("000000000000000b".to_string(), "second".to_string())
    );
    assert_eq!(
        stager.row(0),
        ("000000000000000a".to_string(), "first".to_string())
    );
}

#[test]
fn equal_rows_are_both_kept() {
    let mut stager = RowStager::with_capacity(2);
    stager.stage(7, "same");
    stager.stage(7, "same");
    assert_eq!(stager.len(), 2);
    assert_eq!(stager.row(0), stager.row(1));
}
