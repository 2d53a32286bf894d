use vstd::prelude::*;

use crate::blob::{blob_bytes, find_blob, has_blob, BlobV};
use crate::bucket::{any_shared, any_with_files, BucketCreationError, BucketDeletionError};
use crate::catalog::{buckets_of_user, file_by_id, find_file, has_file_id};
use crate::digest::digest_hex_of;
use crate::store::{
    create_bucket_tr, delete_all_tr, delete_file_tr, files_have_blobs, lemma_dir_exists_push,
    lemma_has_blob_push, no_faults, read_tr, store_wf, upload_tr, Faults, StoreV,
};
use crate::user_file::{FileV, UploadError, UserFileErrors, MAX_FILE_SIZE};

verus! {

// ---------------------------------------------------------------------------
// The laws of the store: what the transitions promise when composed, stated
// once and proved for every state and input they speak of.
// ---------------------------------------------------------------------------

/// Looking up a freshly pushed file row finds exactly that row.
proof fn lemma_find_file_push_fresh(fs: Seq<FileV>, f: FileV)
    requires
        forall|i: int| 0 <= i < fs.len() ==> (#[trigger] fs[i]).file_id != f.file_id,
    ensures
        find_file(fs.push(f), f.file_id) == Some(f),
    decreases fs.len(),
{
    if fs.len() == 0 {
        assert(fs.push(f)[0] == f);
    } else {
        assert(fs.push(f)[0] == fs[0]);
        assert(fs.push(f).drop_first() =~= fs.drop_first().push(f));
        assert forall|i: int| 0 <= i < fs.drop_first().len() implies (#[trigger] fs.drop_first()[
            i
        ]).file_id != f.file_id by {
            assert(fs.drop_first()[i] == fs[i + 1]);
        }
        lemma_find_file_push_fresh(fs.drop_first(), f);
    }
}

/// Looking up a freshly pushed blob finds exactly that blob.
proof fn lemma_find_blob_push_fresh(blobs: Seq<BlobV>, b: BlobV)
    requires
        forall|i: int| 0 <= i < blobs.len() ==> (#[trigger] blobs[i]).file_id != b.file_id,
    ensures
        find_blob(blobs.push(b), b.file_id) == Some(b),
    decreases blobs.len(),
{
    if blobs.len() == 0 {
        assert(blobs.push(b)[0] == b);
    } else {
        assert(blobs.push(b)[0] == blobs[0]);
        assert(blobs.push(b).drop_first() =~= blobs.drop_first().push(b));
        assert forall|i: int|
            0 <= i < blobs.drop_first().len() implies (#[trigger] blobs.drop_first()[i]).file_id
            != b.file_id by {
            assert(blobs.drop_first()[i] == blobs[i + 1]);
        }
        lemma_find_blob_push_fresh(blobs.drop_first(), b);
    }
}

/// An accepted upload is immediately readable by its owner: the read hands
/// back exactly the uploaded bytes, and the row's digest is the digest of
/// those very bytes.
pub proof fn lemma_upload_then_read(
    s: StoreV,
    user_id: u128,
    bytes: Seq<u8>,
    client_name: Seq<char>,
    new_id: u128,
    now: i64,
)
    requires
        store_wf(s),
        0 < bytes.len() <= MAX_FILE_SIZE,
        !has_file_id(s.catalog.files, new_id as int),
        !has_blob(s.blobs.blobs, new_id as int),
    ensures
        ({
            let s1 = upload_tr(s, user_id, bytes, client_name, new_id, now, no_faults()).0;
            let r1 = upload_tr(s, user_id, bytes, client_name, new_id, now, no_faults()).1;
            &&& r1 is Ok
            &&& read_tr(s1, user_id, new_id, no_faults()) == Ok::<Seq<u8>, UserFileErrors>(bytes)
            &&& r1->Ok_0.file_hash == digest_hex_of(bytes)
            &&& r1->Ok_0.file_size == bytes.len()
        }),
{
    let s1 = upload_tr(s, user_id, bytes, client_name, new_id, now, no_faults()).0;
    let r1 = upload_tr(s, user_id, bytes, client_name, new_id, now, no_faults()).1;
    let f = r1->Ok_0;
    crate::catalog::lemma_find_file_none(s.catalog.files, new_id as int);
    crate::blob::lemma_find_blob_none(s.blobs.blobs, new_id as int);
    lemma_find_file_push_fresh(s.catalog.files, f);
    let b = BlobV { file_id: new_id as int, bytes };
    lemma_find_blob_push_fresh(s.blobs.blobs, b);
    assert(file_by_id(s1.catalog.files, new_id as int) == f);
    assert(blob_bytes(s1.blobs.blobs, new_id as int) == bytes);
}

/// An upload with no bytes or too many bytes is rejected before any storage
/// work: whatever identifier was drawn and whatever faults the backends were
/// to suffer, the store is left exactly as it was and no row or blob appears.
pub proof fn lemma_rejected_upload_changes_nothing(
    s: StoreV,
    user_id: u128,
    bytes: Seq<u8>,
    client_name: Seq<char>,
    new_id: u128,
    now: i64,
    faults: Faults,
)
    requires
        bytes.len() == 0 || bytes.len() > MAX_FILE_SIZE,
    ensures
        upload_tr(s, user_id, bytes, client_name, new_id, now, faults).0 == s,
        bytes.len() == 0 ==> upload_tr(s, user_id, bytes, client_name, new_id, now, faults).1
            == Err::<FileV, UploadError>(UploadError::EmptyFile),
        bytes.len() > MAX_FILE_SIZE ==> upload_tr(
            s,
            user_id,
            bytes,
            client_name,
            new_id,
            now,
            faults,
        ).1 == Err::<FileV, UploadError>(UploadError::FileTooLarge),
{
}

/// How a bulk deletion is judged: one shared bucket among a user's buckets
/// blocks it with `CanNotDeleteSharedBucket` whatever else holds of them, and
/// it succeeds exactly when the lookup and the transaction hold up and no
/// bucket is shared or non-empty. A blocked set is left exactly as it was.
pub proof fn lemma_delete_all_verdict(s: StoreV, user_id: u128, faults: Faults)
    ensures
        ({
            let mine = buckets_of_user(s.catalog.buckets, user_id as int);
            &&& (!faults.lookup && any_shared(mine)) ==> delete_all_tr(s, user_id, faults) == (
                s,
                Err::<(), BucketDeletionError>(BucketDeletionError::CanNotDeleteSharedBucket),
            )
            &&& (!faults.lookup && !any_shared(mine) && any_with_files(mine)) ==> delete_all_tr(
                s,
                user_id,
                faults,
            ) == (s, Err::<(), BucketDeletionError>(BucketDeletionError::CanNotDeleteBucketWithFiles))
            &&& (delete_all_tr(s, user_id, faults).1 is Ok <==> (!faults.lookup && !faults.catalog
                && !any_shared(mine) && !any_with_files(mine)))
            &&& delete_all_tr(s, user_id, faults).1 is Err ==> delete_all_tr(s, user_id, faults).0
                == s
        }),
{
}

/// Creating a second bucket under an already-taken name always fails with a
/// name conflict, whoever asks and whatever identifier is drawn, and leaves
/// the store — so also the filesystem, which reflects only the first bucket's
/// directory — exactly as it was.
pub proof fn lemma_duplicate_create_conflicts(
    s: StoreV,
    first_user: u128,
    second_user: u128,
    name: Seq<char>,
    first_id: u128,
    second_id: u128,
    first_now: i64,
    second_now: i64,
    first_faults: Faults,
    second_faults: Faults,
)
    requires
        create_bucket_tr(s, first_user, name, first_id, first_now, first_faults).1 is Ok,
    ensures
        ({
            let s1 = create_bucket_tr(s, first_user, name, first_id, first_now, first_faults).0;
            create_bucket_tr(s1, second_user, name, second_id, second_now, second_faults) == (
                s1,
                Err::<crate::bucket::BucketV, BucketCreationError>(
                    BucketCreationError::NameConflict,
                ),
            )
        }),
{
    let s1 = create_bucket_tr(s, first_user, name, first_id, first_now, first_faults).0;
    lemma_dir_exists_push(s.blobs.dirs, name, name);
}

/// A deletion attempted by anyone but the file's owner is refused with
/// `Forbidden` and mutates nothing: the catalog row and the blob stand
/// exactly as before.
pub proof fn lemma_foreign_delete_changes_nothing(
    s: StoreV,
    user_id: u128,
    file_id: u128,
    faults: Faults,
)
    requires
        !faults.lookup,
        has_file_id(s.catalog.files, file_id as int),
        has_blob(s.blobs.blobs, file_id as int),
        file_by_id(s.catalog.files, file_id as int).user_id != user_id as int,
    ensures
        delete_file_tr(s, user_id, file_id, faults) == (
            s,
            Err::<bool, UserFileErrors>(UserFileErrors::Forbidden),
        ),
{
}

/// An upload preserves the row-has-blob invariant, under every fault pattern
/// and whatever identifier was drawn.
pub proof fn lemma_upload_keeps_consistency(
    s: StoreV,
    user_id: u128,
    bytes: Seq<u8>,
    client_name: Seq<char>,
    new_id: u128,
    now: i64,
    faults: Faults,
)
    requires
        files_have_blobs(s),
    ensures
        files_have_blobs(upload_tr(s, user_id, bytes, client_name, new_id, now, faults).0),
{
    let s1 = upload_tr(s, user_id, bytes, client_name, new_id, now, faults).0;
    if s1 != s {
        let f = upload_tr(s, user_id, bytes, client_name, new_id, now, faults).1->Ok_0;
        let b = BlobV { file_id: new_id as int, bytes };
        assert forall|i: int| 0 <= i < s1.catalog.files.len() implies has_blob(
            s1.blobs.blobs,
            (#[trigger] s1.catalog.files[i]).file_id,
        ) by {
            lemma_has_blob_push(s.blobs.blobs, b, s1.catalog.files[i].file_id);
            if i < s.catalog.files.len() {
                assert(s1.catalog.files[i] == s.catalog.files[i]);
            } else {
                assert(s1.catalog.files[i] == f);
            }
        }
    }
}

/// A bulk bucket deletion touches neither file rows nor blobs, so it
/// preserves the row-has-blob invariant under every fault pattern.
pub proof fn lemma_delete_all_keeps_consistency(s: StoreV, user_id: u128, faults: Faults)
    requires
        files_have_blobs(s),
    ensures
        files_have_blobs(delete_all_tr(s, user_id, faults).0),
{
}

/// A same-user bulk deletion and an upload, serialized by the per-user lock
/// in either order and under any fault patterns, never leave a catalog row
/// whose blob is absent once both have settled.
pub proof fn lemma_serialized_delete_all_and_upload(
    s: StoreV,
    user_id: u128,
    bytes: Seq<u8>,
    client_name: Seq<char>,
    new_id: u128,
    now: i64,
    upload_faults: Faults,
    delete_faults: Faults,
)
    requires
        files_have_blobs(s),
    ensures
        files_have_blobs(
            delete_all_tr(
                upload_tr(s, user_id, bytes, client_name, new_id, now, upload_faults).0,
                user_id,
                delete_faults,
            ).0,
        ),
        files_have_blobs(
            upload_tr(
                delete_all_tr(s, user_id, delete_faults).0,
                user_id,
                bytes,
                client_name,
                new_id,
                now,
                upload_faults,
            ).0,
        ),
{
    lemma_upload_keeps_consistency(s, user_id, bytes, client_name, new_id, now, upload_faults);
    lemma_delete_all_keeps_consistency(
        upload_tr(s, user_id, bytes, client_name, new_id, now, upload_faults).0,
        user_id,
        delete_faults,
    );
    lemma_delete_all_keeps_consistency(s, user_id, delete_faults);
    lemma_upload_keeps_consistency(
        delete_all_tr(s, user_id, delete_faults).0,
        user_id,
        bytes,
        client_name,
        new_id,
        now,
        upload_faults,
    );
}

} // verus!
