use bucket_store::store::{Faults, Store};
use bucket_store::user_file::{UploadError, UserFile, UserFileErrors, MAX_FILE_SIZE};

fn faults(lookup: bool, catalog: bool, blob: bool) -> Faults {
    Faults { lookup, catalog, blob }
}

#[test]
fn upload_then_owner_reads_identical_bytes() {
    let mut st = Store::new();
    let bytes = vec![7u8; 500000];
    let file = st
        .save_user_file(1, bytes.clone(), "report.pdf", 1700000000, Faults::none())
        .expect("upload within the size bounds must be accepted");
    assert_eq!(file.file_size, 500000);
    assert_eq!(file.user_id, 1);
    let read = st
        .get_user_file_by_file_id(1, file.file_id, Faults::none())
        .expect("the owner must be able to read a fresh upload");
    assert_eq!(read, bytes);
}

#[test]
fn full_scenario_upload_foreign_read_own_read_delete() {
    let mut st = Store::new();
    let bytes = vec![7u8; 500000];
    let user_a: u128 = 1;
    let user_b: u128 = 2;
    let file = st
        .save_user_file(user_a, bytes.clone(), "report.pdf", 1700000000, Faults::none())
        .expect("upload within the size bounds must be accepted");
    assert_eq!(file.file_size, 500000);

    let foreign = st.get_user_file_by_file_id(user_b, file.file_id, Faults::none());
    assert_eq!(foreign.unwrap_err(), UserFileErrors::Forbidden);

    let own = st.get_user_file_by_file_id(user_a, file.file_id, Faults::none());
    assert_eq!(own.unwrap(), bytes);

    let deleted = st.delete_user_file_by_file_id(user_a, file.file_id, Faults::none());
    assert_eq!(deleted.unwrap(), true);

    let gone = st.get_user_file_by_file_id(user_a, file.file_id, Faults::none());
    assert_eq!(gone.unwrap_err(), UserFileErrors::NotFound);
}

#[test]
fn empty_upload_is_rejected_with_no_state() {
    let mut st = Store::new();
    let r = st.save_user_file_with_id(42, 1, Vec::new(), "a.pdf", 0, Faults::none());
    assert!(matches!(r, Err(UploadError::EmptyFile)));
    assert!(!st.blobs.blob_exists(42));
    assert!(matches!(
        st.get_file_info_by_id(42),
        Err(UserFileErrors::NotFound)
    ));
}

#[test]
fn oversized_upload_is_rejected_with_no_state() {
    let mut st = Store::new();
    let too_big = vec![0u8; (MAX_FILE_SIZE + 1) as usize];
    let r = st.save_user_file_with_id(42, 1, too_big, "a.bin", 0, Faults::none());
    assert!(matches!(r, Err(UploadError::FileTooLarge)));
    assert!(!st.blobs.blob_exists(42));
    assert!(matches!(
        st.get_file_info_by_id(42),
        Err(UserFileErrors::NotFound)
    ));
}

#[test]
fn upload_at_exact_ceiling_is_accepted() {
    let mut st = Store::new();
    let at_limit = vec![3u8; MAX_FILE_SIZE as usize];
    let r = st.save_user_file_with_id(42, 1, at_limit, "a.bin", 0, Faults::none());
    assert!(r.is_ok());
    assert_eq!(r.unwrap().file_size, MAX_FILE_SIZE);
}

#[test]
fn failed_row_insert_removes_the_blob_again() {
    let mut st = Store::new();
    let r = st.save_user_file_with_id(42, 1, vec![1, 2, 3], "a.txt", 0, faults(false, true, false));
    assert!(matches!(r, Err(UploadError::StorageFailure)));
    assert!(!st.blobs.blob_exists(42));
    assert!(matches!(
        st.get_file_info_by_id(42),
        Err(UserFileErrors::NotFound)
    ));
}

#[test]
fn failed_blob_write_inserts_no_row() {
    let mut st = Store::new();
    let r = st.save_user_file_with_id(42, 1, vec![1, 2, 3], "a.txt", 0, faults(false, false, true));
    assert!(matches!(r, Err(UploadError::StorageFailure)));
    assert!(!st.blobs.blob_exists(42));
    assert!(matches!(
        st.get_file_info_by_id(42),
        Err(UserFileErrors::NotFound)
    ));
}

#[test]
fn recorded_digest_is_the_sha256_of_the_bytes() {
    let mut st = Store::new();
    let file = st
        .save_user_file_with_id(42, 1, b"abc".to_vec(), "a.txt", 0, Faults::none())
        .expect("accepted");
    assert_eq!(
        file.file_hash,
        "ba7816bf8f01cfea414140de5dae2223b00361a396177a9cb410ff61f20015ad"
    );
}

#[test]
fn stored_name_is_generated_id_plus_extension() {
    let mut st = Store::new();
    let file = st
        .save_user_file_with_id(42, 1, vec![1], "photo.jpeg", 0, Faults::none())
        .expect("accepted");
    let expected = format!("{}.jpeg", uuid::Uuid::from_u128(42));
    assert_eq!(file.file_name, expected);

    let plain = st
        .save_user_file_with_id(43, 1, vec![1], "README", 0, Faults::none())
        .expect("accepted");
    assert_eq!(plain.file_name, uuid::Uuid::from_u128(43).to_string());
}

#[test]
fn foreign_delete_changes_nothing_and_is_forbidden() {
    let mut st = Store::new();
    let bytes = vec![9u8; 10];
    let file = st
        .save_user_file(1, bytes.clone(), "mine.txt", 5, Faults::none())
        .expect("accepted");
    let r = st.delete_user_file_by_file_id(2, file.file_id, Faults::none());
    assert_eq!(r.unwrap_err(), UserFileErrors::Forbidden);
    // the row and the blob still stand exactly as before
    let own = st.get_user_file_by_file_id(1, file.file_id, Faults::none());
    assert_eq!(own.unwrap(), bytes);
    assert!(st.blobs.blob_exists(file.file_id));
}

#[test]
fn delete_with_failed_blob_removal_still_drops_the_row() {
    let mut st = Store::new();
    let file = st
        .save_user_file(1, vec![1, 2], "a.txt", 5, Faults::none())
        .expect("accepted");
    let r = st.delete_user_file_by_file_id(1, file.file_id, faults(false, false, true));
    assert_eq!(r.unwrap_err(), UserFileErrors::FailedToDelete);
    // the catalog row is gone; the blob is an orphan awaiting reconciliation
    assert!(matches!(
        st.get_user_file_by_file_id(1, file.file_id, Faults::none()),
        Err(UserFileErrors::NotFound)
    ));
    assert!(st.blobs.blob_exists(file.file_id));
}

#[test]
fn delete_with_failed_row_removal_mutates_nothing() {
    let mut st = Store::new();
    let bytes = vec![1u8, 2];
    let file = st
        .save_user_file(1, bytes.clone(), "a.txt", 5, Faults::none())
        .expect("accepted");
    let r = st.delete_user_file_by_file_id(1, file.file_id, faults(false, true, false));
    assert_eq!(r.unwrap_err(), UserFileErrors::FailedToDelete);
    assert_eq!(
        st.get_user_file_by_file_id(1, file.file_id, Faults::none()).unwrap(),
        bytes
    );
}

#[test]
fn row_without_blob_reads_as_deleted_before_ownership() {
    let mut st = Store::new();
    let file = st
        .save_user_file(1, vec![1, 2], "a.txt", 5, Faults::none())
        .expect("accepted");
    // outside corruption: the blob vanishes while the row stays
    st.blobs
        .remove_blob(file.file_id, false)
        .expect("removal without a fault succeeds");
    // even a non-owner learns only `Deleted`, not `Forbidden`
    let foreign = st.get_user_file_by_file_id(2, file.file_id, Faults::none());
    assert_eq!(foreign.unwrap_err(), UserFileErrors::Deleted);
    let own = st.get_user_file_by_file_id(1, file.file_id, Faults::none());
    assert_eq!(own.unwrap_err(), UserFileErrors::Deleted);
    let del = st.delete_user_file_by_file_id(1, file.file_id, Faults::none());
    assert_eq!(del.unwrap_err(), UserFileErrors::Deleted);
}

#[test]
fn lookup_fault_reads_as_not_found() {
    let mut st = Store::new();
    let file = st
        .save_user_file(1, vec![1], "a.txt", 5, Faults::none())
        .expect("accepted");
    let r = st.get_user_file_by_file_id(1, file.file_id, faults(true, false, false));
    assert_eq!(r.unwrap_err(), UserFileErrors::NotFound);
}

#[test]
fn listing_returns_only_the_users_files() {
    let mut st = Store::new();
    st.save_user_file(1, vec![1], "a.txt", 5, Faults::none()).expect("accepted");
    st.save_user_file(2, vec![2], "b.txt", 6, Faults::none()).expect("accepted");
    st.save_user_file(1, vec![3], "c.txt", 7, Faults::none()).expect("accepted");
    let mine: Vec<UserFile> = st.get_all_user_files(1);
    assert_eq!(mine.len(), 2);
    assert!(mine.iter().all(|f| f.user_id == 1));
    assert_eq!(st.get_all_user_files(2).len(), 1);
    assert_eq!(st.get_all_user_files(3).len(), 0);
}

#[test]
fn duplicate_generated_identifier_surfaces_as_storage_failure() {
    let mut st = Store::new();
    st.save_user_file_with_id(42, 1, vec![1], "a.txt", 0, Faults::none())
        .expect("accepted");
    let r = st.save_user_file_with_id(42, 1, vec![2], "b.txt", 0, Faults::none());
    assert!(matches!(r, Err(UploadError::StorageFailure)));
}
