use bucket_store::blob::BlobStore;
use bucket_store::bucket::{
    classify_buckets, Bucket, BucketCreationError, BucketDeletionError, DEFAULT_MAX_BUCKET_SIZE,
};
use bucket_store::catalog::Catalog;
use bucket_store::store::{Faults, Store};

fn faults(lookup: bool, catalog: bool, blob: bool) -> Faults {
    Faults { lookup, catalog, blob }
}

fn bucket(id: u128, user: u128, name: &str, size: i64, shared: bool) -> Bucket {
    Bucket {
        bucket_id: id,
        user_id: user,
        bucket_name: name.to_owned(),
        bucket_size: size,
        max_bucket_size: DEFAULT_MAX_BUCKET_SIZE,
        created_date: 0,
        is_shared: shared,
    }
}

/// A store whose catalog already holds the given buckets, each with its
/// directory present.
fn store_with(buckets: Vec<Bucket>) -> Store {
    let dirs = buckets.iter().map(|b| b.bucket_name.clone()).collect();
    Store {
        catalog: Catalog { buckets, files: Vec::new() },
        blobs: BlobStore { dirs, blobs: Vec::new() },
    }
}

#[test]
fn create_bucket_yields_a_fresh_empty_row() {
    let mut st = Store::new();
    let b = st
        .create_user_bucket(1, "photos", 1700000000, Faults::none())
        .expect("creating an unused name must succeed");
    assert_eq!(b.user_id, 1);
    assert_eq!(b.bucket_name, "photos");
    assert_eq!(b.bucket_size, 0);
    assert_eq!(b.max_bucket_size, DEFAULT_MAX_BUCKET_SIZE);
    assert!(!b.is_shared);
    assert!(st.blobs.bucket_dir_exists("photos"));
    assert!(st.get_bucket_by_name("photos").is_some());
}

#[test]
fn second_bucket_of_same_name_conflicts_even_across_users() {
    let mut st = Store::new();
    st.create_user_bucket(1, "shared-name", 0, Faults::none()).expect("first");
    let r = st.create_user_bucket(2, "shared-name", 1, Faults::none());
    assert!(matches!(r, Err(BucketCreationError::NameConflict)));
    // the filesystem reflects only the first bucket's directory
    assert_eq!(st.get_all_bucket_names().len(), 1);
    assert_eq!(st.get_all_user_bucket_info(2).len(), 0);
    assert_eq!(st.get_all_user_bucket_info(1).len(), 1);
}

#[test]
fn failed_insert_rolls_the_directory_back() {
    let mut st = Store::new();
    let r = st.create_user_bucket(1, "doomed", 0, faults(false, true, false));
    assert!(matches!(r, Err(BucketCreationError::StorageFailure)));
    assert!(!st.blobs.bucket_dir_exists("doomed"));
    assert!(st.get_bucket_by_name("doomed").is_none());
    // the name is free again afterwards
    assert!(st.create_user_bucket(1, "doomed", 0, Faults::none()).is_ok());
}

#[test]
fn classification_precedence_is_order_blind() {
    let shared_first = vec![
        bucket(1, 9, "a", 0, true),
        bucket(2, 9, "b", 10, false),
        bucket(3, 9, "c", 0, false),
    ];
    let shared_last = vec![
        bucket(3, 9, "c", 0, false),
        bucket(2, 9, "b", 10, false),
        bucket(1, 9, "a", 0, true),
    ];
    assert_eq!(
        classify_buckets(&shared_first),
        Some(BucketDeletionError::CanNotDeleteSharedBucket)
    );
    assert_eq!(
        classify_buckets(&shared_last),
        Some(BucketDeletionError::CanNotDeleteSharedBucket)
    );

    let only_nonempty = vec![bucket(1, 9, "a", 0, false), bucket(2, 9, "b", 10, false)];
    assert_eq!(
        classify_buckets(&only_nonempty),
        Some(BucketDeletionError::CanNotDeleteBucketWithFiles)
    );

    let all_clear = vec![bucket(1, 9, "a", 0, false), bucket(2, 9, "b", 0, false)];
    assert_eq!(classify_buckets(&all_clear), None);
    assert_eq!(classify_buckets(&Vec::new()), None);
}

#[test]
fn delete_all_refuses_a_set_with_a_shared_bucket() {
    let mut st = store_with(vec![
        bucket(1, 9, "a", 0, false),
        bucket(2, 9, "b", 0, true),
        bucket(3, 9, "c", 5, false),
    ]);
    let r = st.delete_user_buckets(9, Faults::none());
    assert_eq!(r.unwrap_err(), BucketDeletionError::CanNotDeleteSharedBucket);
    // nothing was deleted
    assert_eq!(st.get_all_user_bucket_info(9).len(), 3);
    assert!(st.blobs.bucket_dir_exists("a"));
    assert!(st.blobs.bucket_dir_exists("b"));
    assert!(st.blobs.bucket_dir_exists("c"));
}

#[test]
fn delete_all_refuses_a_set_with_a_nonempty_bucket() {
    let mut st = store_with(vec![bucket(1, 9, "a", 0, false), bucket(2, 9, "b", 5, false)]);
    let r = st.delete_user_buckets(9, Faults::none());
    assert_eq!(
        r.unwrap_err(),
        BucketDeletionError::CanNotDeleteBucketWithFiles
    );
    assert_eq!(st.get_all_user_bucket_info(9).len(), 2);
}

#[test]
fn delete_all_removes_exactly_the_users_rows_and_dirs() {
    let mut st = store_with(vec![
        bucket(1, 9, "a", 0, false),
        bucket(2, 8, "other", 0, false),
        bucket(3, 9, "c", 0, false),
    ]);
    let r = st.delete_user_buckets(9, Faults::none());
    assert!(r.is_ok());
    assert_eq!(st.get_all_user_bucket_info(9).len(), 0);
    assert_eq!(st.get_all_user_bucket_info(8).len(), 1);
    assert!(!st.blobs.bucket_dir_exists("a"));
    assert!(!st.blobs.bucket_dir_exists("c"));
    assert!(st.blobs.bucket_dir_exists("other"));
}

#[test]
fn delete_all_of_a_user_without_buckets_succeeds() {
    let mut st = store_with(vec![bucket(1, 8, "other", 0, false)]);
    assert!(st.delete_user_buckets(9, Faults::none()).is_ok());
    assert_eq!(st.get_all_user_bucket_info(8).len(), 1);
}

#[test]
fn delete_all_with_failed_lookup_is_invalid() {
    let mut st = store_with(vec![bucket(1, 9, "a", 0, false)]);
    let r = st.delete_user_buckets(9, faults(true, false, false));
    assert_eq!(r.unwrap_err(), BucketDeletionError::InvalidBucket);
    assert_eq!(st.get_all_user_bucket_info(9).len(), 1);
}

#[test]
fn delete_all_with_failed_transaction_deletes_nothing() {
    let mut st = store_with(vec![bucket(1, 9, "a", 0, false), bucket(3, 9, "c", 0, false)]);
    let r = st.delete_user_buckets(9, faults(false, true, false));
    assert_eq!(r.unwrap_err(), BucketDeletionError::FailedToDeleteBucket);
    // atomic: both rows and both directories still stand
    assert_eq!(st.get_all_user_bucket_info(9).len(), 2);
    assert!(st.blobs.bucket_dir_exists("a"));
    assert!(st.blobs.bucket_dir_exists("c"));
}

#[test]
fn delete_all_with_failed_dir_removal_still_succeeds() {
    let mut st = store_with(vec![bucket(1, 9, "a", 0, false)]);
    let r = st.delete_user_buckets(9, faults(false, false, true));
    assert!(r.is_ok());
    // the rows are gone; the directory is an orphan awaiting reconciliation
    assert_eq!(st.get_all_user_bucket_info(9).len(), 0);
    assert!(st.blobs.bucket_dir_exists("a"));
}

#[test]
fn concurrent_style_upload_and_delete_all_leave_no_dangling_row() {
    // the per-user lock serializes the two operations; in either order no
    // catalog row may be left without its blob
    let mut first = Store::new();
    first.create_user_bucket(9, "box", 0, Faults::none()).expect("created");
    let f = first
        .save_user_file(9, vec![1, 2, 3], "a.txt", 0, Faults::none())
        .expect("accepted");
    first.delete_user_buckets(9, Faults::none()).expect("eligible");
    assert!(first.blobs.blob_exists(f.file_id));

    let mut second = Store::new();
    second.create_user_bucket(9, "box", 0, Faults::none()).expect("created");
    second.delete_user_buckets(9, Faults::none()).expect("eligible");
    let g = second
        .save_user_file(9, vec![1, 2, 3], "a.txt", 0, Faults::none())
        .expect("accepted");
    assert!(second.blobs.blob_exists(g.file_id));
}

#[test]
fn bucket_lookup_by_name_and_id() {
    let mut st = Store::new();
    let made = st.create_user_bucket(1, "photos", 77, Faults::none()).expect("created");
    let by_name = st.get_bucket_by_name("photos").expect("present");
    assert_eq!(by_name.bucket_id, made.bucket_id);
    assert_eq!(by_name.created_date, 77);
    let by_id = st.catalog.get_bucket_by_id(made.bucket_id).expect("present");
    assert_eq!(by_id.bucket_name, "photos");
    assert!(st.get_bucket_by_name("absent").is_none());
    assert!(st.catalog.get_bucket_by_id(made.bucket_id.wrapping_add(1)).is_none());
}
