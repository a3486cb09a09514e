use sn_dkg::dir_metadata::DirMetadata;

#[test]
fn dir_metadata_holds_what_it_was_given() {
    let metadata = DirMetadata::new(
        b"photos".to_vec(),
        vec![1, 2, 3],
        true,
        (1_600_000_000, 999_999_999),
        (1_600_000_500, 17),
    );
    assert_eq!(metadata.name, b"photos".to_vec());
    assert_eq!(metadata.name_len(), 6);
    assert_eq!(metadata.user_metadata, vec![1, 2, 3]);
    assert_eq!(metadata.user_metadata_len(), 3);
    assert!(metadata.is_private);
    assert_eq!(metadata.creation_time_sec, 1_600_000_000);
    assert_eq!(metadata.creation_time_nsec, 999_999_999);
    assert_eq!(metadata.modification_time_sec, 1_600_000_500);
    assert_eq!(metadata.modification_time_nsec, 17);
}

#[test]
fn dir_metadata_widens_negative_nanoseconds() {
    let metadata = DirMetadata::new(vec![], vec![], false, (-5, -1), (i64::MIN, i32::MIN));
    assert_eq!(metadata.creation_time_sec, -5);
    assert_eq!(metadata.creation_time_nsec, -1);
    assert_eq!(metadata.modification_time_sec, i64::MIN);
    assert_eq!(metadata.modification_time_nsec, i32::MIN as i64);
    assert_eq!(metadata.name_len(), 0);
}
