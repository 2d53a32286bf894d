use vstd::prelude::*;

use crate::blob::{
    blob_bytes, blob_id_not, blobs_without, dir_exists, dir_not_in, dirs_without_names, has_blob,
    lemma_dir_exists_iff, lemma_filter_blobs_distinct, lemma_filter_dirs_distinct,
    lemma_find_blob_none, names_contain, str_views, BlobStore, BlobStoreV, BlobV,
};
use crate::bucket::{
    bucket_views, classify_buckets, deletion_block_of, Bucket, BucketCreationError,
    BucketDeletionError, BucketV, DEFAULT_MAX_BUCKET_SIZE,
};
use crate::catalog::{
    bucket_id_not_in, bucket_owned_by, buckets_of_user, buckets_without_ids, catalog_wf,
    file_by_id, file_id_not, files_of_user, files_without_id, has_bucket_id, has_bucket_name,
    has_file_id, ids_contain, lemma_filter_buckets_distinct, lemma_find_file_none, Catalog,
    CatalogV,
};
use crate::digest::{digest_hex, digest_hex_of};
use crate::user_file::{
    file_views, stored_name_of, FileV, UploadError, UserFile, UserFileErrors, MAX_FILE_SIZE,
};
use crate::utility::new_uuid;

verus! {

// ---------------------------------------------------------------------------
// The store: the catalog and the blob store side by side, driven by the two
// lifecycle managers. Every operation is an atomic step over the pair — the
// per-user exclusive lock that serializes bucket-lifecycle mutations in a
// deployment is what grants an operation this atomicity. The `Faults`
// argument of an operation says which backend steps fail during it, so the
// compensation rules (roll back a created directory, remove an orphaned blob)
// are verified for every failure pattern.
// ---------------------------------------------------------------------------

/// Which backend steps fail during one operation.
#[derive(Clone, Copy, Debug, PartialEq, Eq, Structural)]
pub struct Faults {
    /// The catalog read that starts the operation fails.
    pub lookup: bool,
    /// The catalog mutation fails.
    pub catalog: bool,
    /// The blob-store mutation fails.
    pub blob: bool,
}

/// The fault pattern in which no backend step fails.
pub open spec fn no_faults() -> Faults {
    Faults { lookup: false, catalog: false, blob: false }
}

impl Faults {
    /// No backend step fails.
    pub fn none() -> (r: Faults)
        ensures
            r == no_faults(),
    {
        Faults { lookup: false, catalog: false, blob: false }
    }
}

/// The catalog and the blob store together.
pub struct Store {
    pub catalog: Catalog,
    pub blobs: BlobStore,
}

/// The mathematical image of the whole store.
pub ghost struct StoreV {
    pub catalog: CatalogV,
    pub blobs: BlobStoreV,
}

impl View for Store {
    type V = StoreV;

    open spec fn view(&self) -> StoreV {
        StoreV { catalog: self.catalog@, blobs: self.blobs@ }
    }
}

/// Every bucket row has its directory. Creation makes the directory first and
/// rolls it back on a failed insert, and deletion removes rows before
/// directories, so this holds at every committed state.
pub open spec fn buckets_have_dirs(s: StoreV) -> bool {
    forall|i: int|
        0 <= i < s.catalog.buckets.len() ==> dir_exists(
            s.blobs.dirs,
            (#[trigger] s.catalog.buckets[i]).bucket_name,
        )
}

/// Every file row has its blob. An upload writes the blob before the row and
/// a deletion removes the row before the blob, so operations preserve this;
/// outside corruption can still break it, which reads then surface as
/// `Deleted`.
pub open spec fn files_have_blobs(s: StoreV) -> bool {
    forall|i: int|
        0 <= i < s.catalog.files.len() ==> has_blob(
            s.blobs.blobs,
            (#[trigger] s.catalog.files[i]).file_id,
        )
}

/// Store well-formedness: both halves are well-formed and every bucket has
/// its directory.
pub open spec fn store_wf(s: StoreV) -> bool {
    &&& catalog_wf(s.catalog)
    &&& crate::blob::blob_store_wf(s.blobs)
    &&& buckets_have_dirs(s)
}

// ---------------------------------------------------------------------------
// The transitions, as spec functions: what each operation does to the store
// and what it returns. The executable operations are proved to match them
// exactly.
// ---------------------------------------------------------------------------

/// The predicate keeping the buckets that a user's bulk deletion spares.
pub open spec fn bucket_not_owned_by(user_id: int) -> spec_fn(BucketV) -> bool {
    |b: BucketV| b.user_id != user_id
}

/// The bucket table with one user's rows removed.
pub open spec fn buckets_not_of_user(bs: Seq<BucketV>, user_id: int) -> Seq<BucketV> {
    bs.filter(bucket_not_owned_by(user_id))
}

/// The names of a sequence of buckets.
pub open spec fn names_of(bs: Seq<BucketV>) -> Seq<Seq<char>> {
    bs.map_values(|b: BucketV| b.bucket_name)
}

/// Creating a bucket: the directory is attempted first, so an existing
/// directory is a name conflict that never touches the catalog; a failed
/// insert rolls the fresh directory back, leaving neither a row nor a
/// directory.
pub open spec fn create_bucket_tr(
    s: StoreV,
    user_id: u128,
    name: Seq<char>,
    new_id: u128,
    now: i64,
    faults: Faults,
) -> (StoreV, Result<BucketV, BucketCreationError>) {
    if dir_exists(s.blobs.dirs, name) {
        (s, Err(BucketCreationError::NameConflict))
    } else if faults.catalog || has_bucket_name(s.catalog.buckets, name) || has_bucket_id(
        s.catalog.buckets,
        new_id as int,
    ) {
        (s, Err(BucketCreationError::StorageFailure))
    } else {
        let b = BucketV {
            bucket_id: new_id as int,
            user_id: user_id as int,
            bucket_name: name,
            bucket_size: 0,
            max_bucket_size: DEFAULT_MAX_BUCKET_SIZE as int,
            created_date: now as int,
            is_shared: false,
        };
        (
            StoreV {
                catalog: CatalogV { buckets: s.catalog.buckets.push(b), files: s.catalog.files },
                blobs: BlobStoreV { dirs: s.blobs.dirs.push(name), blobs: s.blobs.blobs },
            },
            Ok(b),
        )
    }
}

/// Deleting all of a user's buckets: the whole set is classified first and a
/// blocked set is left untouched; an eligible set loses its rows in one
/// atomic statement and only then its directories, so a directory-removal
/// fault leaves orphan directories but still reports success.
pub open spec fn delete_all_tr(s: StoreV, user_id: u128, faults: Faults) -> (
    StoreV,
    Result<(), BucketDeletionError>,
) {
    let mine = buckets_of_user(s.catalog.buckets, user_id as int);
    if faults.lookup {
        (s, Err(BucketDeletionError::InvalidBucket))
    } else if deletion_block_of(mine) is Some {
        (s, Err(deletion_block_of(mine)->0))
    } else if faults.catalog {
        (s, Err(BucketDeletionError::FailedToDeleteBucket))
    } else {
        let dirs2 = if faults.blob {
            s.blobs.dirs
        } else {
            dirs_without_names(s.blobs.dirs, names_of(mine))
        };
        (
            StoreV {
                catalog: CatalogV {
                    buckets: buckets_not_of_user(s.catalog.buckets, user_id as int),
                    files: s.catalog.files,
                },
                blobs: BlobStoreV { dirs: dirs2, blobs: s.blobs.blobs },
            },
            Ok(()),
        )
    }
}

/// Uploading a file: the byte count is judged before any storage work; the
/// blob is made durable before the row is inserted; a failed insert removes
/// the blob again, so no state change survives any failure.
pub open spec fn upload_tr(
    s: StoreV,
    user_id: u128,
    bytes: Seq<u8>,
    client_name: Seq<char>,
    new_id: u128,
    now: i64,
    faults: Faults,
) -> (StoreV, Result<FileV, UploadError>) {
    if bytes.len() == 0 {
        (s, Err(UploadError::EmptyFile))
    } else if bytes.len() > MAX_FILE_SIZE {
        (s, Err(UploadError::FileTooLarge))
    } else if has_file_id(s.catalog.files, new_id as int) || has_blob(
        s.blobs.blobs,
        new_id as int,
    ) {
        (s, Err(UploadError::StorageFailure))
    } else if faults.blob || faults.catalog {
        (s, Err(UploadError::StorageFailure))
    } else {
        let f = FileV {
            file_id: new_id as int,
            user_id: user_id as int,
            file_name: stored_name_of(new_id, client_name),
            created_date: now as int,
            file_size: bytes.len() as int,
            file_hash: digest_hex_of(bytes),
            is_shared: false,
        };
        (
            StoreV {
                catalog: CatalogV { buckets: s.catalog.buckets, files: s.catalog.files.push(f) },
                blobs: BlobStoreV {
                    dirs: s.blobs.dirs,
                    blobs: s.blobs.blobs.push(BlobV { file_id: new_id as int, bytes }),
                },
            },
            Ok(f),
        )
    }
}

/// Reading a file: a missing row is `NotFound`; a row whose blob is gone is
/// `Deleted`, judged before ownership so that probing cannot tell "not yours"
/// from "gone"; a foreign row is `Forbidden`; otherwise the stored bytes.
pub open spec fn read_tr(s: StoreV, user_id: u128, file_id: u128, faults: Faults) -> Result<
    Seq<u8>,
    UserFileErrors,
> {
    if faults.lookup {
        Err(UserFileErrors::NotFound)
    } else if !has_file_id(s.catalog.files, file_id as int) {
        Err(UserFileErrors::NotFound)
    } else if !has_blob(s.blobs.blobs, file_id as int) {
        Err(UserFileErrors::Deleted)
    } else if file_by_id(s.catalog.files, file_id as int).user_id != user_id as int {
        Err(UserFileErrors::Forbidden)
    } else {
        Ok(blob_bytes(s.blobs.blobs, file_id as int))
    }
}

/// Deleting a file: the lookup and blob check mirror a read, ownership is
/// judged strictly before any mutation, the row goes first and the blob
/// second, and a blob-removal fault leaves an orphan blob with the deletion
/// reported as a storage-side failure.
pub open spec fn delete_file_tr(s: StoreV, user_id: u128, file_id: u128, faults: Faults) -> (
    StoreV,
    Result<bool, UserFileErrors>,
) {
    let id = file_id as int;
    if faults.lookup {
        (s, Err(UserFileErrors::NotFound))
    } else if !has_file_id(s.catalog.files, id) {
        (s, Err(UserFileErrors::NotFound))
    } else if !has_blob(s.blobs.blobs, id) {
        (s, Err(UserFileErrors::Deleted))
    } else if file_by_id(s.catalog.files, id).user_id != user_id as int {
        (s, Err(UserFileErrors::Forbidden))
    } else if faults.catalog {
        (s, Err(UserFileErrors::FailedToDelete))
    } else {
        let s2 = StoreV {
            catalog: CatalogV {
                buckets: s.catalog.buckets,
                files: files_without_id(s.catalog.files, id),
            },
            blobs: s.blobs,
        };
        if faults.blob {
            (s2, Err(UserFileErrors::FailedToDelete))
        } else {
            (
                StoreV {
                    catalog: s2.catalog,
                    blobs: BlobStoreV {
                        dirs: s.blobs.dirs,
                        blobs: blobs_without(s.blobs.blobs, id),
                    },
                },
                Ok(true),
            )
        }
    }
}

/// The view of an upload result.
pub open spec fn file_res_view(r: Result<UserFile, UploadError>) -> Result<FileV, UploadError> {
    match r {
        Ok(f) => Ok(f@),
        Err(e) => Err(e),
    }
}

/// The view of a bucket-creation result.
pub open spec fn bucket_res_view(r: Result<Bucket, BucketCreationError>) -> Result<
    BucketV,
    BucketCreationError,
> {
    match r {
        Ok(b) => Ok(b@),
        Err(e) => Err(e),
    }
}

/// The view of a read result.
pub open spec fn read_res_view(r: Result<Vec<u8>, UserFileErrors>) -> Result<
    Seq<u8>,
    UserFileErrors,
> {
    match r {
        Ok(b) => Ok(b@),
        Err(e) => Err(e),
    }
}

// ---------------------------------------------------------------------------
// Shared lemmas.
// ---------------------------------------------------------------------------

/// Two predicates that agree on every element filter a sequence alike.
pub proof fn lemma_filter_congruent<A>(s: Seq<A>, p1: spec_fn(A) -> bool, p2: spec_fn(A) -> bool)
    requires
        forall|i: int| 0 <= i < s.len() ==> p1(#[trigger] s[i]) == p2(s[i]),
    ensures
        s.filter(p1) == s.filter(p2),
    decreases s.len(),
{
    reveal(Seq::filter);
    if s.len() > 0 {
        let prefix = s.drop_last();
        assert forall|i: int| 0 <= i < prefix.len() implies p1(#[trigger] prefix[i]) == p2(
            prefix[i],
        ) by {
            assert(prefix[i] == s[i]);
        }
        lemma_filter_congruent(prefix, p1, p2);
        assert(p1(s.last()) == p2(s.last()));
    }
}

/// A filter whose predicate holds everywhere keeps the whole sequence.
pub proof fn lemma_filter_retains_all<A>(s: Seq<A>, pred: spec_fn(A) -> bool)
    requires
        forall|i: int| 0 <= i < s.len() ==> pred(#[trigger] s[i]),
    ensures
        s.filter(pred) == s,
    decreases s.len(),
{
    reveal(Seq::filter);
    if s.len() > 0 {
        let prefix = s.drop_last();
        assert forall|i: int| 0 <= i < prefix.len() implies pred(#[trigger] prefix[i]) by {
            assert(prefix[i] == s[i]);
        }
        lemma_filter_retains_all(prefix, pred);
        assert(s.filter(pred) =~= s);
    }
}

/// A file row is present exactly when some index carries its identifier.
pub proof fn lemma_has_file_iff(fs: Seq<FileV>, id: int)
    ensures
        has_file_id(fs, id) <==> exists|i: int| 0 <= i < fs.len() && fs[i].file_id == id,
{
    lemma_find_file_none(fs, id);
    if exists|i: int| 0 <= i < fs.len() && fs[i].file_id == id {
        let i = choose|i: int| 0 <= i < fs.len() && fs[i].file_id == id;
        assert(fs[i].file_id == id);
    }
}

/// A blob is present exactly when some index carries its identifier.
pub proof fn lemma_has_blob_iff(blobs: Seq<BlobV>, id: int)
    ensures
        has_blob(blobs, id) <==> exists|i: int| 0 <= i < blobs.len() && blobs[i].file_id == id,
{
    lemma_find_blob_none(blobs, id);
    if exists|i: int| 0 <= i < blobs.len() && blobs[i].file_id == id {
        let i = choose|i: int| 0 <= i < blobs.len() && blobs[i].file_id == id;
        assert(blobs[i].file_id == id);
    }
}

/// Removing one blob affects that identifier alone.
pub proof fn lemma_blobs_without_has(blobs: Seq<BlobV>, id: int, x: int)
    ensures
        has_blob(blobs_without(blobs, id), x) <==> (has_blob(blobs, x) && x != id),
{
    lemma_has_blob_iff(blobs, x);
    lemma_has_blob_iff(blobs_without(blobs, id), x);
    broadcast use vstd::seq_lib::group_filter_ensures;

    let pred = blob_id_not(id);
    if has_blob(blobs_without(blobs, id), x) {
        let i = choose|i: int|
            0 <= i < blobs.filter(pred).len() && blobs.filter(pred)[i].file_id == x;
        assert(blobs.filter(pred).contains(blobs.filter(pred)[i]));
        blobs.lemma_filter_contains_rev(pred, blobs.filter(pred)[i]);
        let k = choose|k: int| 0 <= k < blobs.len() && blobs[k] == blobs.filter(pred)[i];
        assert(blobs[k].file_id == x);
        assert(pred(blobs.filter(pred)[i]));
    }
    if has_blob(blobs, x) && x != id {
        let i = choose|i: int| 0 <= i < blobs.len() && blobs[i].file_id == x;
        blobs.lemma_filter_contains(pred, i);
        assert(blobs.filter(pred).contains(blobs[i]));
        let k = choose|k: int|
            0 <= k < blobs.filter(pred).len() && blobs.filter(pred)[k] == blobs[i];
        assert(blobs.filter(pred)[k].file_id == x);
    }
}

/// Removing the blob that was just written restores the blobs exactly.
pub proof fn lemma_remove_fresh_blob(blobs: Seq<BlobV>, b: BlobV)
    requires
        forall|i: int| 0 <= i < blobs.len() ==> (#[trigger] blobs[i]).file_id != b.file_id,
    ensures
        blobs_without(blobs.push(b), b.file_id) == blobs,
{
    reveal(Seq::filter);
    let pred = blob_id_not(b.file_id);
    assert(blobs.push(b).drop_last() =~= blobs);
    assert(blobs.push(b).last() == b);
    lemma_filter_retains_all(blobs, pred);
}

/// Removing the directory that was just created restores the directories
/// exactly.
pub proof fn lemma_remove_fresh_dir(dirs: Seq<Seq<char>>, name: Seq<char>)
    requires
        forall|i: int| 0 <= i < dirs.len() ==> dirs[i] != name,
    ensures
        crate::blob::dirs_without(dirs.push(name), name) == dirs,
{
    reveal(Seq::filter);
    let pred = crate::blob::dir_not(name);
    assert(dirs.push(name).drop_last() =~= dirs);
    assert(dirs.push(name).last() == name);
    lemma_filter_retains_all(dirs, pred);
}

/// A directory survives a push, and a pushed directory is present.
pub proof fn lemma_dir_exists_push(dirs: Seq<Seq<char>>, name: Seq<char>, x: Seq<char>)
    ensures
        dir_exists(dirs.push(name), x) <==> (dir_exists(dirs, x) || x == name),
{
    lemma_dir_exists_iff(dirs, x);
    lemma_dir_exists_iff(dirs.push(name), x);
    if dir_exists(dirs, x) {
        let i = choose|i: int| 0 <= i < dirs.len() && dirs[i] == x;
        assert(dirs.push(name)[i] == x);
    }
    if x == name {
        assert(dirs.push(name)[dirs.len() as int] == x);
    }
    if dir_exists(dirs.push(name), x) {
        let i = choose|i: int| 0 <= i < dirs.push(name).len() && dirs.push(name)[i] == x;
        if i < dirs.len() {
            assert(dirs[i] == x);
        }
    }
}

/// A blob survives a push, and a pushed blob is present.
pub proof fn lemma_has_blob_push(blobs: Seq<BlobV>, b: BlobV, x: int)
    ensures
        has_blob(blobs.push(b), x) <==> (has_blob(blobs, x) || b.file_id == x),
{
    lemma_has_blob_iff(blobs, x);
    lemma_has_blob_iff(blobs.push(b), x);
    if has_blob(blobs, x) {
        let i = choose|i: int| 0 <= i < blobs.len() && blobs[i].file_id == x;
        assert(blobs.push(b)[i].file_id == x);
    }
    if b.file_id == x {
        assert(blobs.push(b)[blobs.len() as int].file_id == x);
    }
    if has_blob(blobs.push(b), x) {
        let i = choose|i: int| 0 <= i < blobs.push(b).len() && blobs.push(b)[i].file_id == x;
        if i < blobs.len() {
            assert(blobs[i].file_id == x);
        }
    }
}

/// A batch deletion keyed by exactly the identifiers of a user's buckets
/// removes exactly that user's rows.
pub proof fn lemma_user_bucket_partition(bs: Seq<BucketV>, user_id: int, ids: Seq<u128>)
    requires
        forall|i: int, j: int| 0 <= i < j < bs.len() ==> bs[i].bucket_id != bs[j].bucket_id,
        ids.len() == buckets_of_user(bs, user_id).len(),
        forall|k: int|
            0 <= k < ids.len() ==> ids[k] as int == buckets_of_user(bs, user_id)[k].bucket_id,
    ensures
        buckets_without_ids(bs, ids) == buckets_not_of_user(bs, user_id),
{
    let mine = buckets_of_user(bs, user_id);
    assert forall|p: int| 0 <= p < bs.len() implies bucket_id_not_in(ids)(#[trigger] bs[p])
        == bucket_not_owned_by(user_id)(bs[p]) by {
        if bs[p].user_id == user_id {
            bs.lemma_filter_contains(bucket_owned_by(user_id), p);
            let k = choose|k: int| 0 <= k < mine.len() && mine[k] == bs[p];
            assert(ids[k] as int == bs[p].bucket_id);
            assert(ids_contain(ids, bs[p].bucket_id));
        }
        if ids_contain(ids, bs[p].bucket_id) {
            let k = choose|k: int| 0 <= k < ids.len() && ids[k] as int == bs[p].bucket_id;
            assert(mine[k].bucket_id == bs[p].bucket_id);
            assert(mine.contains(mine[k]));
            bs.lemma_filter_contains_rev(bucket_owned_by(user_id), mine[k]);
            let q = choose|q: int| 0 <= q < bs.len() && bs[q] == mine[k];
            bs.lemma_filter_pred(bucket_owned_by(user_id), k);
            if p != q {
                if p < q {
                    assert(bs[p].bucket_id != bs[q].bucket_id);
                } else {
                    assert(bs[q].bucket_id != bs[p].bucket_id);
                }
            }
            assert(bs[p].user_id == user_id);
        }
    }
    lemma_filter_congruent(bs, bucket_id_not_in(ids), bucket_not_owned_by(user_id));
}

// ---------------------------------------------------------------------------
// The store operations.
// ---------------------------------------------------------------------------

impl Store {
    /// A store with an empty catalog and an empty blob store.
    pub fn new() -> (r: Store)
        ensures
            r@.catalog.buckets == Seq::<BucketV>::empty(),
            r@.catalog.files == Seq::<FileV>::empty(),
            r@.blobs.dirs == Seq::<Seq<char>>::empty(),
            r@.blobs.blobs == Seq::<BlobV>::empty(),
            store_wf(r@),
            files_have_blobs(r@),
    {
        Store { catalog: Catalog::new(), blobs: BlobStore::new() }
    }

    /// Creates a bucket under a caller-supplied identifier: the directory
    /// first, then the catalog row, with the directory rolled back if the
    /// insert fails, so a failed creation leaves neither a row nor a
    /// directory.
    pub fn create_user_bucket_with_id(
        &mut self,
        bucket_id: u128,
        user_id: u128,
        bucket_name: &str,
        now: i64,
        faults: Faults,
    ) -> (r: Result<Bucket, BucketCreationError>)
        requires
            store_wf(old(self)@),
        ensures
            store_wf(final(self)@),
            files_have_blobs(old(self)@) ==> files_have_blobs(final(self)@),
            final(self)@ == create_bucket_tr(
                old(self)@,
                user_id,
                bucket_name@,
                bucket_id,
                now,
                faults,
            ).0,
            bucket_res_view(r) == create_bucket_tr(
                old(self)@,
                user_id,
                bucket_name@,
                bucket_id,
                now,
                faults,
            ).1,
    {
        let ghost s0 = self@;
        if self.blobs.bucket_dir_exists(bucket_name) {
            return Err(BucketCreationError::NameConflict);
        }
        match self.blobs.create_bucket_dir(bucket_name) {
            Ok(()) => {},
            Err(_) => {
                return vstd::pervasive::unreached();
            },
        }
        let row = Bucket {
            bucket_id,
            user_id,
            bucket_name: bucket_name.to_owned(),
            bucket_size: 0,
            max_bucket_size: DEFAULT_MAX_BUCKET_SIZE,
            created_date: now,
            is_shared: false,
        };
        let result_row = row.duplicate();
        let inserted = self.catalog.insert_bucket(row, faults.catalog);
        match inserted {
            Ok(()) => {
                proof {
                    lemma_dir_exists_iff(s0.blobs.dirs, bucket_name@);
                    let nds = self@.blobs.dirs;
                    assert(nds == s0.blobs.dirs.push(bucket_name@));
                    assert forall|p: int, q: int| 0 <= p < q < nds.len() implies nds[p]
                        != nds[q] by {
                        if q < s0.blobs.dirs.len() {
                            assert(nds[p] == s0.blobs.dirs[p] && nds[q] == s0.blobs.dirs[q]);
                        } else {
                            assert(nds[p] == s0.blobs.dirs[p] && nds[q] == bucket_name@);
                        }
                    }
                    assert forall|i: int| 0 <= i < self@.catalog.buckets.len() implies dir_exists(
                        self@.blobs.dirs,
                        (#[trigger] self@.catalog.buckets[i]).bucket_name,
                    ) by {
                        lemma_dir_exists_push(
                            s0.blobs.dirs,
                            bucket_name@,
                            self@.catalog.buckets[i].bucket_name,
                        );
                        if i < s0.catalog.buckets.len() {
                            assert(self@.catalog.buckets[i] == s0.catalog.buckets[i]);
                        } else {
                            assert(self@.catalog.buckets[i].bucket_name == bucket_name@);
                        }
                    }
                    assert(store_wf(self@));
                    assert(self@ == create_bucket_tr(s0, user_id, bucket_name@, bucket_id, now, faults).0);
                }
                Ok(result_row)
            },
            Err(_) => {
                match self.blobs.remove_bucket_dir(bucket_name, false) {
                    Ok(()) => {},
                    Err(_) => {
                        return vstd::pervasive::unreached();
                    },
                }
                proof {
                    lemma_dir_exists_iff(s0.blobs.dirs, bucket_name@);
                    lemma_remove_fresh_dir(s0.blobs.dirs, bucket_name@);
                    assert(self@.blobs.dirs == s0.blobs.dirs);
                    assert(self@ == s0);
                }
                Err(BucketCreationError::StorageFailure)
            },
        }
    }

    /// Creates a bucket under a freshly drawn identifier. Which identifier
    /// comes out is random, so the outcome is pinned down only relative to
    /// it: an existing directory is always a name conflict, and a success is
    /// exactly the creation transition at the returned row's identifier.
    pub fn create_user_bucket(
        &mut self,
        user_id: u128,
        bucket_name: &str,
        now: i64,
        faults: Faults,
    ) -> (r: Result<Bucket, BucketCreationError>)
        requires
            store_wf(old(self)@),
        ensures
            store_wf(final(self)@),
            files_have_blobs(old(self)@) ==> files_have_blobs(final(self)@),
            exists|id: u128|
                final(self)@ == create_bucket_tr(
                    old(self)@,
                    user_id,
                    bucket_name@,
                    id,
                    now,
                    faults,
                ).0 && bucket_res_view(r) == create_bucket_tr(
                    old(self)@,
                    user_id,
                    bucket_name@,
                    id,
                    now,
                    faults,
                ).1,
            r matches Ok(b) ==> final(self)@ == create_bucket_tr(
                old(self)@,
                user_id,
                bucket_name@,
                b.bucket_id,
                now,
                faults,
            ).0 && Ok::<BucketV, BucketCreationError>(b@) == create_bucket_tr(
                old(self)@,
                user_id,
                bucket_name@,
                b.bucket_id,
                now,
                faults,
            ).1,
            r matches Err(BucketCreationError::NameConflict) <==> dir_exists(
                old(self)@.blobs.dirs,
                bucket_name@,
            ),
    {
        let id = new_uuid();
        let r = self.create_user_bucket_with_id(id, user_id, bucket_name, now, faults);
        proof {
            let tr = create_bucket_tr(old(self)@, user_id, bucket_name@, id, now, faults);
            assert(final(self)@ == tr.0 && bucket_res_view(r) == tr.1);
        }
        r
    }

    /// Copies of all bucket rows owned by `user_id`.
    pub fn get_all_user_bucket_info(&self, user_id: u128) -> (r: Vec<Bucket>)
        ensures
            bucket_views(r@) == buckets_of_user(self@.catalog.buckets, user_id as int),
    {
        self.catalog.list_buckets_by_user(user_id)
    }

    /// The bucket row of that name, if any.
    pub fn get_bucket_by_name(&self, bucket_name: &str) -> (r: Option<Bucket>)
        ensures
            match r {
                Some(b) => has_bucket_name(self@.catalog.buckets, bucket_name@) && b@
                    == crate::catalog::bucket_by_name(self@.catalog.buckets, bucket_name@),
                None => !has_bucket_name(self@.catalog.buckets, bucket_name@),
            },
    {
        self.catalog.get_bucket_by_name(bucket_name)
    }

    /// All bucket names in the catalog.
    pub fn get_all_bucket_names(&self) -> (r: Vec<crate::bucket::BucketNames>)
        ensures
            r@.len() == self@.catalog.buckets.len(),
            forall|i: int|
                0 <= i < r@.len() ==> (#[trigger] r@[i]).bucket_name@
                    == self@.catalog.buckets[i].bucket_name,
    {
        self.catalog.list_bucket_names()
    }

    /// Deletes all of a user's buckets, all or nothing: any shared bucket
    /// blocks the whole set, then any non-empty one; an eligible set loses
    /// its catalog rows in one transaction and only afterwards its
    /// directories.
    pub fn delete_user_buckets(&mut self, user_id: u128, faults: Faults) -> (r: Result<
        (),
        BucketDeletionError,
    >)
        requires
            store_wf(old(self)@),
        ensures
            store_wf(final(self)@),
            files_have_blobs(old(self)@) ==> files_have_blobs(final(self)@),
            final(self)@ == delete_all_tr(old(self)@, user_id, faults).0,
            r == delete_all_tr(old(self)@, user_id, faults).1,
    {
        let ghost s0 = self@;
        let ghost mine_v = buckets_of_user(s0.catalog.buckets, user_id as int);
        if faults.lookup {
            return Err(BucketDeletionError::InvalidBucket);
        }
        let user_buckets = self.catalog.list_buckets_by_user(user_id);
        match classify_buckets(&user_buckets) {
            Some(e) => {
                return Err(e);
            },
            None => {},
        }
        let mut bucket_ids: Vec<u128> = Vec::new();
        let mut names: Vec<String> = Vec::new();
        let mut i: usize = 0;
        while i < user_buckets.len()
            invariant
                i <= user_buckets@.len(),
                *self == *old(self),
                s0 == self@,
                store_wf(s0),
                !faults.lookup,
                mine_v == buckets_of_user(s0.catalog.buckets, user_id as int),
                bucket_views(user_buckets@) == mine_v,
                deletion_block_of(mine_v) is None,
                bucket_ids@.len() == i,
                str_views(names@).len() == i,
                forall|k: int| 0 <= k < i ==> bucket_ids@[k] as int == mine_v[k].bucket_id,
                forall|k: int| 0 <= k < i ==> (#[trigger] names@[k])@ == mine_v[k].bucket_name,
            decreases user_buckets@.len() - i,
        {
            bucket_ids.push(user_buckets[i].bucket_id);
            names.push(user_buckets[i].bucket_name.clone());
            i = i + 1;
            proof {
                assert(names@[i - 1]@ == user_buckets@[i - 1].bucket_name@);
                assert(bucket_ids@[i - 1] as int == mine_v[i - 1].bucket_id);
            }
        }
        proof {
            assert forall|k: int| 0 <= k < names@.len() implies str_views(names@)[k] == names_of(
                mine_v,
            )[k] by {
                assert(names@[k]@ == mine_v[k].bucket_name);
            }
            assert(str_views(names@) =~= names_of(mine_v));
        }
        match self.catalog.delete_buckets(&bucket_ids, faults.catalog) {
            Err(_) => {
                return Err(BucketDeletionError::FailedToDeleteBucket);
            },
            Ok(()) => {},
        }
        proof {
            lemma_user_bucket_partition(s0.catalog.buckets, user_id as int, bucket_ids@);
        }
        let removed = self.blobs.remove_bucket_dirs(&names, faults.blob);
        proof {
            let remaining = buckets_not_of_user(s0.catalog.buckets, user_id as int);
            assert(self@.catalog.buckets == remaining);
            let nds = self@.blobs.dirs;
            if faults.blob {
                assert(removed is Err);
                assert(nds == s0.blobs.dirs);
            } else {
                assert(removed is Ok);
                assert(nds == dirs_without_names(s0.blobs.dirs, names_of(mine_v)));
                lemma_filter_dirs_distinct(s0.blobs.dirs, dir_not_in(names_of(mine_v)));
            }
            assert forall|p: int| 0 <= p < remaining.len() implies dir_exists(
                nds,
                (#[trigger] remaining[p]).bucket_name,
            ) by {
                let b = remaining[p];
                assert(remaining.contains(b));
                s0.catalog.buckets.lemma_filter_contains_rev(
                    bucket_not_owned_by(user_id as int),
                    b,
                );
                s0.catalog.buckets.lemma_filter_pred(bucket_not_owned_by(user_id as int), p);
                let q = choose|q: int|
                    0 <= q < s0.catalog.buckets.len() && s0.catalog.buckets[q] == b;
                assert(dir_exists(s0.blobs.dirs, b.bucket_name));
                if !faults.blob {
                    assert(!names_contain(names_of(mine_v), b.bucket_name)) by {
                        if names_contain(names_of(mine_v), b.bucket_name) {
                            let k = choose|k: int|
                                0 <= k < names_of(mine_v).len() && names_of(mine_v)[k]
                                    == b.bucket_name;
                            assert(mine_v[k].bucket_name == b.bucket_name);
                            assert(mine_v.contains(mine_v[k]));
                            s0.catalog.buckets.lemma_filter_contains_rev(
                                bucket_owned_by(user_id as int),
                                mine_v[k],
                            );
                            s0.catalog.buckets.lemma_filter_pred(
                                bucket_owned_by(user_id as int),
                                k,
                            );
                            let w = choose|w: int|
                                0 <= w < s0.catalog.buckets.len() && s0.catalog.buckets[w]
                                    == mine_v[k];
                            if w != q {
                                if w < q {
                                    assert(s0.catalog.buckets[w].bucket_name
                                        != s0.catalog.buckets[q].bucket_name);
                                } else {
                                    assert(s0.catalog.buckets[q].bucket_name
                                        != s0.catalog.buckets[w].bucket_name);
                                }
                            }
                            assert(false);
                        }
                    }
                    lemma_dir_exists_iff(s0.blobs.dirs, b.bucket_name);
                    let di = choose|di: int|
                        0 <= di < s0.blobs.dirs.len() && s0.blobs.dirs[di] == b.bucket_name;
                    s0.blobs.dirs.lemma_filter_contains(dir_not_in(names_of(mine_v)), di);
                    assert(nds.contains(b.bucket_name));
                    lemma_dir_exists_iff(nds, b.bucket_name);
                    let dj = choose|dj: int| 0 <= dj < nds.len() && nds[dj] == b.bucket_name;
                    assert(nds[dj] == b.bucket_name);
                }
            }
            assert(store_wf(self@));
            assert(self@ == delete_all_tr(s0, user_id, faults).0);
        }
        Ok(())
    }

    /// Copies of all file rows owned by `user_id`.
    pub fn get_all_user_files(&self, user_id: u128) -> (r: Vec<UserFile>)
        ensures
            file_views(r@) == files_of_user(self@.catalog.files, user_id as int),
    {
        self.catalog.list_files_by_user(user_id)
    }

    /// The file row of that identifier, or `NotFound`.
    pub fn get_file_info_by_id(&self, file_id: u128) -> (r: Result<UserFile, UserFileErrors>)
        ensures
            match r {
                Ok(f) => has_file_id(self@.catalog.files, file_id as int) && f@ == file_by_id(
                    self@.catalog.files,
                    file_id as int,
                ),
                Err(UserFileErrors::NotFound) => !has_file_id(self@.catalog.files, file_id as int),
                Err(_) => false,
            },
    {
        match self.catalog.get_file_by_id(file_id) {
            Some(f) => Ok(f),
            None => Err(UserFileErrors::NotFound),
        }
    }

    /// Stores an upload under a caller-supplied identifier: the size gate
    /// first, then the blob, then the row, with the blob removed again if the
    /// insert fails, so no failure leaves an orphan blob or a dangling row.
    pub fn save_user_file_with_id(
        &mut self,
        file_id: u128,
        user_id: u128,
        bytes: Vec<u8>,
        client_name: &str,
        now: i64,
        faults: Faults,
    ) -> (r: Result<UserFile, UploadError>)
        requires
            store_wf(old(self)@),
        ensures
            store_wf(final(self)@),
            files_have_blobs(old(self)@) ==> files_have_blobs(final(self)@),
            final(self)@ == upload_tr(
                old(self)@,
                user_id,
                bytes@,
                client_name@,
                file_id,
                now,
                faults,
            ).0,
            file_res_view(r) == upload_tr(
                old(self)@,
                user_id,
                bytes@,
                client_name@,
                file_id,
                now,
                faults,
            ).1,
    {
        let ghost s0 = self@;
        let ghost byts = bytes@;
        if bytes.len() == 0 {
            return Err(UploadError::EmptyFile);
        }
        if bytes.len() as u64 > MAX_FILE_SIZE {
            return Err(UploadError::FileTooLarge);
        }
        let row_present = self.catalog.get_file_by_id(file_id);
        let blob_present = self.blobs.blob_exists(file_id);
        if row_present.is_some() || blob_present {
            return Err(UploadError::StorageFailure);
        }
        if faults.blob {
            return Err(UploadError::StorageFailure);
        }
        let digest = digest_hex(bytes.as_slice());
        let stored = crate::user_file::make_stored_name(file_id, client_name);
        let size = bytes.len() as u64;
        let row = UserFile {
            file_id,
            user_id,
            file_name: stored,
            created_date: now,
            file_size: size,
            file_hash: digest,
            is_shared: false,
        };
        let result_row = row.duplicate();
        let ghost b = BlobV { file_id: file_id as int, bytes: byts };
        match self.blobs.write_blob(file_id, bytes, false) {
            Ok(()) => {},
            Err(_) => {
                return vstd::pervasive::unreached();
            },
        }
        let inserted = self.catalog.insert_file(row, faults.catalog);
        match inserted {
            Ok(()) => {
                proof {
                    let f = row@;
                    lemma_find_blob_none(s0.blobs.blobs, file_id as int);
                    let nblobs = self@.blobs.blobs;
                    assert(nblobs == s0.blobs.blobs.push(b));
                    assert forall|p: int, q: int| 0 <= p < q < nblobs.len() implies nblobs[p].file_id
                        != nblobs[q].file_id by {
                        if q < s0.blobs.blobs.len() {
                            assert(nblobs[p] == s0.blobs.blobs[p] && nblobs[q] == s0.blobs.blobs[q]);
                        } else {
                            assert(nblobs[p] == s0.blobs.blobs[p] && nblobs[q] == b);
                        }
                    }
                    assert forall|i: int| 0 <= i < self@.catalog.buckets.len() implies dir_exists(
                        self@.blobs.dirs,
                        (#[trigger] self@.catalog.buckets[i]).bucket_name,
                    ) by {
                        assert(self@.catalog.buckets[i] == s0.catalog.buckets[i]);
                        assert(self@.blobs.dirs == s0.blobs.dirs);
                    }
                    assert(store_wf(self@));
                    if files_have_blobs(s0) {
                        assert forall|i: int| 0 <= i < self@.catalog.files.len() implies has_blob(
                            nblobs,
                            (#[trigger] self@.catalog.files[i]).file_id,
                        ) by {
                            lemma_has_blob_push(
                                s0.blobs.blobs,
                                b,
                                self@.catalog.files[i].file_id,
                            );
                            if i < s0.catalog.files.len() {
                                assert(self@.catalog.files[i] == s0.catalog.files[i]);
                            } else {
                                assert(self@.catalog.files[i] == f);
                            }
                        }
                    }
                    assert(self@ == upload_tr(s0, user_id, byts, client_name@, file_id, now, faults).0);
                }
                Ok(result_row)
            },
            Err(_) => {
                match self.blobs.remove_blob(file_id, false) {
                    Ok(()) => {},
                    Err(_) => {
                        return vstd::pervasive::unreached();
                    },
                }
                proof {
                    lemma_find_blob_none(s0.blobs.blobs, file_id as int);
                    lemma_remove_fresh_blob(s0.blobs.blobs, b);
                    assert(self@.blobs.blobs == s0.blobs.blobs);
                    assert(self@ == s0);
                }
                Err(UploadError::StorageFailure)
            },
        }
    }

    /// Stores an upload under a freshly drawn identifier. Which identifier
    /// comes out is random, so the outcome is pinned down only relative to
    /// it: a bad size is always rejected with nothing changed, and a success
    /// is exactly the upload transition at the returned row's identifier.
    pub fn save_user_file(
        &mut self,
        user_id: u128,
        bytes: Vec<u8>,
        client_name: &str,
        now: i64,
        faults: Faults,
    ) -> (r: Result<UserFile, UploadError>)
        requires
            store_wf(old(self)@),
        ensures
            store_wf(final(self)@),
            files_have_blobs(old(self)@) ==> files_have_blobs(final(self)@),
            exists|id: u128|
                final(self)@ == upload_tr(
                    old(self)@,
                    user_id,
                    bytes@,
                    client_name@,
                    id,
                    now,
                    faults,
                ).0 && file_res_view(r) == upload_tr(
                    old(self)@,
                    user_id,
                    bytes@,
                    client_name@,
                    id,
                    now,
                    faults,
                ).1,
            r matches Ok(f) ==> final(self)@ == upload_tr(
                old(self)@,
                user_id,
                bytes@,
                client_name@,
                f.file_id,
                now,
                faults,
            ).0 && Ok::<FileV, UploadError>(f@) == upload_tr(
                old(self)@,
                user_id,
                bytes@,
                client_name@,
                f.file_id,
                now,
                faults,
            ).1,
            bytes@.len() == 0 ==> final(self)@ == old(self)@ && r == Err::<UserFile, UploadError>(
                UploadError::EmptyFile,
            ),
            bytes@.len() > MAX_FILE_SIZE ==> final(self)@ == old(self)@ && r == Err::<
                UserFile,
                UploadError,
            >(UploadError::FileTooLarge),
    {
        let ghost byts = bytes@;
        let id = new_uuid();
        let r = self.save_user_file_with_id(id, user_id, bytes, client_name, now, faults);
        proof {
            let tr = upload_tr(old(self)@, user_id, byts, client_name@, id, now, faults);
            assert(final(self)@ == tr.0 && file_res_view(r) == tr.1);
        }
        r
    }

    /// Reads a file's bytes for a caller: a missing row is `NotFound`, a row
    /// without its blob is `Deleted` (judged before ownership), a foreign row
    /// is `Forbidden`.
    pub fn get_user_file_by_file_id(&self, user_id: u128, file_id: u128, faults: Faults) -> (r:
        Result<Vec<u8>, UserFileErrors>)
        ensures
            read_res_view(r) == read_tr(self@, user_id, file_id, faults),
    {
        if faults.lookup {
            return Err(UserFileErrors::NotFound);
        }
        let row = match self.catalog.get_file_by_id(file_id) {
            Some(f) => f,
            None => {
                return Err(UserFileErrors::NotFound);
            },
        };
        let bytes = match self.blobs.read_blob(file_id) {
            Some(b) => b,
            None => {
                return Err(UserFileErrors::Deleted);
            },
        };
        if !crate::user_file::user_can_read(&row, user_id) {
            return Err(UserFileErrors::Forbidden);
        }
        Ok(bytes)
    }

    /// Deletes a file for a caller: ownership is judged strictly before any
    /// mutation; then the catalog row goes, and only afterwards the blob, a
    /// failure of which orphans the blob and is reported as `FailedToDelete`.
    pub fn delete_user_file_by_file_id(&mut self, user_id: u128, file_id: u128, faults: Faults) -> (r:
        Result<bool, UserFileErrors>)
        requires
            store_wf(old(self)@),
        ensures
            store_wf(final(self)@),
            files_have_blobs(old(self)@) ==> files_have_blobs(final(self)@),
            final(self)@ == delete_file_tr(old(self)@, user_id, file_id, faults).0,
            r == delete_file_tr(old(self)@, user_id, file_id, faults).1,
    {
        let ghost s0 = self@;
        if faults.lookup {
            return Err(UserFileErrors::NotFound);
        }
        let row = match self.catalog.get_file_by_id(file_id) {
            Some(f) => f,
            None => {
                return Err(UserFileErrors::NotFound);
            },
        };
        if !self.blobs.blob_exists(file_id) {
            return Err(UserFileErrors::Deleted);
        }
        if !crate::user_file::user_can_delete(&row, user_id) {
            return Err(UserFileErrors::Forbidden);
        }
        match self.catalog.delete_file(file_id, faults.catalog) {
            Err(_) => {
                return Err(UserFileErrors::FailedToDelete);
            },
            Ok(()) => {},
        }
        proof {
            let remaining = files_without_id(s0.catalog.files, file_id as int);
            assert(self@.catalog.files == remaining);
            assert forall|i: int| 0 <= i < self@.catalog.buckets.len() implies dir_exists(
                self@.blobs.dirs,
                (#[trigger] self@.catalog.buckets[i]).bucket_name,
            ) by {
                assert(self@.catalog.buckets[i] == s0.catalog.buckets[i]);
                assert(self@.blobs.dirs == s0.blobs.dirs);
            }
        }
        let removed = self.blobs.remove_blob(file_id, faults.blob);
        proof {
            let remaining = files_without_id(s0.catalog.files, file_id as int);
            if faults.blob {
                assert(removed is Err);
                assert(self@.blobs == s0.blobs);
            } else {
                assert(removed is Ok);
                assert(self@.blobs.blobs == blobs_without(s0.blobs.blobs, file_id as int));
                lemma_filter_blobs_distinct(s0.blobs.blobs, blob_id_not(file_id as int));
            }
            assert forall|i: int| 0 <= i < self@.catalog.buckets.len() implies dir_exists(
                self@.blobs.dirs,
                (#[trigger] self@.catalog.buckets[i]).bucket_name,
            ) by {
                assert(self@.catalog.buckets[i] == s0.catalog.buckets[i]);
                assert(self@.blobs.dirs == s0.blobs.dirs);
            }
            if files_have_blobs(s0) {
                assert forall|i: int| 0 <= i < self@.catalog.files.len() implies has_blob(
                    self@.blobs.blobs,
                    (#[trigger] self@.catalog.files[i]).file_id,
                ) by {
                    let f = remaining[i];
                    assert(remaining.contains(f));
                    s0.catalog.files.lemma_filter_contains_rev(file_id_not(file_id as int), f);
                    s0.catalog.files.lemma_filter_pred(file_id_not(file_id as int), i);
                    let q = choose|q: int|
                        0 <= q < s0.catalog.files.len() && s0.catalog.files[q] == f;
                    assert(has_blob(s0.blobs.blobs, f.file_id));
                    if !faults.blob {
                        lemma_blobs_without_has(s0.blobs.blobs, file_id as int, f.file_id);
                    }
                }
            }
            assert(store_wf(self@));
            assert(self@ == delete_file_tr(s0, user_id, file_id, faults).0);
        }
        if removed.is_err() {
            return Err(UserFileErrors::FailedToDelete);
        }
        Ok(true)
    }
}

} // verus!
